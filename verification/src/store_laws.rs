//! What every operation of the store keeps: each deque ordered by creation
//! time, oldest first, and each post in the map of its kind.
use vstd::prelude::*;
use vstd::multiset::Multiset;
use crate::config::DELETE_EVENT_KEY;
use crate::post::{LightPost, TweetDeleteEvent, sorted_oldest_first};
use crate::store_spec::{
    PostStoreView, PostKind, deque_or_empty, place_post, place_in_map, lemma_place_post, insert_one, insert_all,
    delete_one, delete_all, tombstone_post, trim_posts, trim_map, trim_view, purge_ids, purge_map, purge_view,
    sorted_map_of, sorted_view_of, map_sorted, store_sorted, fits_kind, map_fits_kind, store_kinds,
    duplicate_at_place, within_retention, trim_safe, trim_ready, age_known, expired,
    expired_prefix_len, ServeRules, user_selection, gather, at_most, newest_first, videos_served, all_posts_served,
};
use crate::config::{
    MAX_TINY_POSTS_PER_USER_SCAN, MAX_VIDEO_POSTS_PER_AUTHOR, MAX_ORIGINAL_POSTS_PER_AUTHOR, MAX_REPLY_POSTS_PER_AUTHOR,
};
use crate::laws::{
    lemma_gather_at_most_per_author, lemma_served_posts_respect_request, lemma_gather_from_requested_authors,
    from_requested_author, among_newest,
};

verus! {

/// Every post of `s` fits `kind`.
pub open spec fn all_fit(s: Seq<LightPost>, kind: PostKind) -> bool {
    forall|i: int| 0 <= i < s.len() ==> #[trigger] fits_kind(s[i], kind)
}

/// Dropping posts by a filter keeps a deque ordered oldest first, and keeps
/// every post fitting a kind that fitted it.
proof fn lemma_filter_keeps(s: Seq<LightPost>, f: spec_fn(LightPost) -> bool, kind: PostKind)
    ensures
        sorted_oldest_first(s) ==> sorted_oldest_first(s.filter(f)),
        all_fit(s, kind) ==> all_fit(s.filter(f), kind),
    decreases s.len(),
{
    reveal_with_fuel(Seq::filter, 1);
    broadcast use vstd::seq_lib::group_filter_ensures;
    if s.len() > 0 {
        let d = s.drop_last();
        lemma_filter_keeps(d, f, kind);
        let fd = d.filter(f);
        if sorted_oldest_first(s) {
            assert(sorted_oldest_first(d)) by {
                assert forall|i: int, j: int| 0 <= i <= j < d.len() implies d[i].created_at <= d[j].created_at by {
                    assert(d[i] == s[i] && d[j] == s[j]);
                }
            }
            if f(s.last()) {
                let r = fd.push(s.last());
                assert forall|i: int, j: int| 0 <= i <= j < r.len() implies r[i].created_at <= r[j].created_at by {
                    if j == r.len() - 1 && i < j {
                        assert(r[i] == fd[i]);
                        assert(fd.contains(fd[i]));
                        d.lemma_filter_contains_rev(f, fd[i]);
                        let t = choose|t: int| 0 <= t < d.len() && d[t] == fd[i];
                        assert(s[t] == d[t]);
                    } else if j < r.len() - 1 {
                        assert(r[i] == fd[i] && r[j] == fd[j]);
                    }
                }
            }
        }
        if all_fit(s, kind) {
            assert(all_fit(d, kind)) by {
                assert forall|i: int| 0 <= i < d.len() implies #[trigger] fits_kind(d[i], kind) by {
                    assert(d[i] == s[i]);
                }
            }
            if f(s.last()) {
                let r = fd.push(s.last());
                assert forall|i: int| 0 <= i < r.len() implies #[trigger] fits_kind(r[i], kind) by {
                    if i < fd.len() {
                        assert(r[i] == fd[i]);
                    } else {
                        assert(r[i] == s[s.len() - 1]);
                    }
                }
            }
        }
    }
}

/// Dropping a prefix keeps a deque ordered oldest first and keeps every post
/// fitting a kind that fitted it.
proof fn lemma_skip_keeps(s: Seq<LightPost>, n: int, kind: PostKind)
    requires
        0 <= n <= s.len(),
    ensures
        sorted_oldest_first(s) ==> sorted_oldest_first(s.skip(n)),
        all_fit(s, kind) ==> all_fit(s.skip(n), kind),
{
    let r = s.skip(n);
    if sorted_oldest_first(s) {
        assert forall|i: int, j: int| 0 <= i <= j < r.len() implies r[i].created_at <= r[j].created_at by {
            assert(r[i] == s[n + i] && r[j] == s[n + j]);
        }
    }
    if all_fit(s, kind) {
        assert forall|i: int| 0 <= i < r.len() implies #[trigger] fits_kind(r[i], kind) by {
            assert(r[i] == s[n + i]);
        }
    }
}

/// Placing a post keeps every post fitting a kind when the new one fits it.
proof fn lemma_place_fits(s: Seq<LightPost>, p: LightPost, kind: PostKind)
    requires
        all_fit(s, kind),
        fits_kind(p, kind),
    ensures
        all_fit(place_post(s, p), kind),
{
    lemma_place_post(s, p);
    let r = place_post(s, p);
    assert forall|i: int| 0 <= i < r.len() implies #[trigger] fits_kind(r[i], kind) by {
        if r[i] != p {
            assert(s.contains(r[i]));
            let t = choose|t: int| 0 <= t < s.len() && s[t] == r[i];
        }
    }
}

/// A map whose posts fit `kind` has deques whose posts fit it.
proof fn lemma_deque_fits(m: Map<i64, Seq<LightPost>>, a: i64, kind: PostKind)
    requires
        map_fits_kind(m, kind),
    ensures
        all_fit(deque_or_empty(m, a), kind),
{
    if m.contains_key(a) {
        assert forall|i: int| 0 <= i < m[a].len() implies #[trigger] fits_kind(m[a][i], kind) by {
            assert(fits_kind(m[a][i], kind));
        }
    }
}

/// Placing a post in a map keeps its deques ordered oldest first, and keeps its
/// posts fitting `kind` when the new one fits it.
proof fn lemma_place_in_map_keeps(m: Map<i64, Seq<LightPost>>, a: i64, p: LightPost, kind: PostKind)
    ensures
        map_sorted(m) ==> map_sorted(place_in_map(m, a, p)),
        map_fits_kind(m, kind) && fits_kind(p, kind) ==> map_fits_kind(place_in_map(m, a, p), kind),
{
    let dq = deque_or_empty(m, a);
    lemma_place_post(dq, p);
    let m2 = place_in_map(m, a, p);
    if map_fits_kind(m, kind) && fits_kind(p, kind) {
        lemma_deque_fits(m, a, kind);
        lemma_place_fits(dq, p, kind);
        assert forall|k: i64, i: int| m2.contains_key(k) && 0 <= i < m2[k].len() implies #[trigger] fits_kind(m2[k][i], kind) by {
            if k == a {
                assert(fits_kind(place_post(dq, p)[i], kind));
            }
        }
    }
}

/// Taking in a post keeps every deque ordered oldest first.
pub proof fn lemma_insert_keeps_sorted(v: PostStoreView, p: LightPost)
    requires
        store_sorted(v),
    ensures
        store_sorted(insert_one(v, p)),
{
    let w = insert_one(v, p);
    if !v.deleted.contains(p.post_id) {
        if p.is_original() {
            let dq = deque_or_empty(v.original, p.author_id);
            lemma_place_post(dq, p);
            lemma_place_in_map_keeps(v.video, p.author_id, p, PostKind::Video);
            assert(map_sorted(w.original));
        } else {
            let dq = deque_or_empty(v.secondary, p.author_id);
            lemma_place_post(dq, p);
            assert(map_sorted(w.secondary));
        }
    }
}

/// Taking in a run of posts keeps every deque ordered oldest first.
pub proof fn lemma_insert_all_keeps_sorted(v: PostStoreView, posts: Seq<LightPost>)
    requires
        store_sorted(v),
    ensures
        store_sorted(insert_all(v, posts)),
    decreases posts.len(),
{
    if posts.len() > 0 {
        lemma_insert_all_keeps_sorted(v, posts.drop_last());
        lemma_insert_keeps_sorted(insert_all(v, posts.drop_last()), posts.last());
    }
}

/// Taking in a post keeps every post in the map of its kind.
pub proof fn lemma_insert_keeps_kinds(v: PostStoreView, p: LightPost)
    requires
        store_kinds(v),
    ensures
        store_kinds(insert_one(v, p)),
{
    let w = insert_one(v, p);
    if !v.deleted.contains(p.post_id) {
        if p.is_original() {
            lemma_place_in_map_keeps(v.original, p.author_id, p, PostKind::Original);
            lemma_place_in_map_keeps(v.video, p.author_id, p, PostKind::Video);
            lemma_deque_fits(v.original, p.author_id, PostKind::Original);
            assert(map_fits_kind(w.original, PostKind::Original)) by {
                let dq = deque_or_empty(v.original, p.author_id);
                assert forall|k: i64, i: int| w.original.contains_key(k) && 0 <= i < w.original[k].len()
                    implies #[trigger] fits_kind(w.original[k][i], PostKind::Original) by {
                    if k == p.author_id {
                        lemma_place_fits(dq, p, PostKind::Original);
                        if !crate::store_spec::duplicate_at_place(dq, p) {
                            assert(w.original[k] == place_post(dq, p));
                        } else {
                            assert(w.original[k] == dq);
                        }
                    }
                }
            }
        } else {
            let dq = deque_or_empty(v.secondary, p.author_id);
            lemma_deque_fits(v.secondary, p.author_id, PostKind::Secondary);
            lemma_place_fits(dq, p, PostKind::Secondary);
            assert forall|k: i64, i: int| w.secondary.contains_key(k) && 0 <= i < w.secondary[k].len()
                implies #[trigger] fits_kind(w.secondary[k][i], PostKind::Secondary) by {
                if k == p.author_id {
                    if !crate::store_spec::duplicate_at_place(dq, p) {
                        assert(w.secondary[k] == place_post(dq, p));
                    } else {
                        assert(w.secondary[k] == dq);
                    }
                }
            }
        }
    }
}

/// Taking in a run of posts keeps every post in the map of its kind.
pub proof fn lemma_insert_all_keeps_kinds(v: PostStoreView, posts: Seq<LightPost>)
    requires
        store_kinds(v),
    ensures
        store_kinds(insert_all(v, posts)),
    decreases posts.len(),
{
    if posts.len() > 0 {
        lemma_insert_all_keeps_kinds(v, posts.drop_last());
        lemma_insert_keeps_kinds(insert_all(v, posts.drop_last()), posts.last());
    }
}

/// Recording a delete event keeps every deque ordered oldest first and every
/// post in the map of its kind (a delete event is kept as an original post).
pub proof fn lemma_delete_keeps(v: PostStoreView, e: TweetDeleteEvent)
    ensures
        store_sorted(v) ==> store_sorted(delete_one(v, e)),
        store_kinds(v) ==> store_kinds(delete_one(v, e)),
{
    lemma_place_in_map_keeps(v.original, DELETE_EVENT_KEY, tombstone_post(e), PostKind::Original);
}

/// Recording a run of delete events keeps every deque ordered oldest first and
/// every post in the map of its kind.
pub proof fn lemma_delete_all_keeps(v: PostStoreView, events: Seq<TweetDeleteEvent>)
    ensures
        store_sorted(v) ==> store_sorted(delete_all(v, events)),
        store_kinds(v) ==> store_kinds(delete_all(v, events)),
    decreases events.len(),
{
    if events.len() > 0 {
        lemma_delete_all_keeps(v, events.drop_last());
        lemma_delete_keeps(delete_all(v, events.drop_last()), events.last());
    }
}

/// A trim of a map keeps its deques ordered and its posts fitting `kind`.
proof fn lemma_trim_map_keeps(m: Map<i64, Seq<LightPost>>, now: u64, retention_seconds: u64, kind: PostKind)
    ensures
        map_sorted(m) ==> map_sorted(trim_map(m, now, retention_seconds)),
        map_fits_kind(m, kind) ==> map_fits_kind(trim_map(m, now, retention_seconds), kind),
{
    let t = trim_map(m, now, retention_seconds);
    assert forall|k: i64| #[trigger] t.contains_key(k) implies (sorted_oldest_first(m[k]) ==> sorted_oldest_first(t[k]))
        && (all_fit(m[k], kind) ==> all_fit(t[k], kind)) by {
        crate::laws::lemma_trim_pops_expired(m[k], now, retention_seconds);
        lemma_skip_keeps(m[k], crate::store_spec::expired_prefix_len(m[k], now, retention_seconds) as int, kind);
    }
    if map_fits_kind(m, kind) {
        assert forall|k: i64, i: int| t.contains_key(k) && 0 <= i < t[k].len() implies #[trigger] fits_kind(t[k][i], kind) by {
            lemma_deque_fits(m, k, kind);
        }
    }
}

/// A trim keeps every deque ordered oldest first and every post in the map of
/// its kind.
pub proof fn lemma_trim_keeps(v: PostStoreView, now: u64)
    ensures
        store_sorted(v) ==> store_sorted(trim_view(v, now)),
        store_kinds(v) ==> store_kinds(trim_view(v, now)),
{
    let r = v.retention_seconds;
    lemma_trim_map_keeps(v.original, now, r, PostKind::Original);
    lemma_trim_map_keeps(v.secondary, now, r, PostKind::Secondary);
    lemma_trim_map_keeps(v.video, now, r, PostKind::Video);
}

/// A purge of a map keeps its deques ordered and its posts fitting `kind`.
proof fn lemma_purge_map_keeps(m: Map<i64, Seq<LightPost>>, ids: Set<i64>, spare: bool, kind: PostKind)
    ensures
        map_sorted(m) ==> map_sorted(purge_map(m, ids, spare)),
        map_fits_kind(m, kind) ==> map_fits_kind(purge_map(m, ids, spare), kind),
{
    let t = purge_map(m, ids, spare);
    assert forall|k: i64| #[trigger] t.contains_key(k) implies (sorted_oldest_first(m[k]) ==> sorted_oldest_first(t[k]))
        && (all_fit(m[k], kind) ==> all_fit(t[k], kind)) by {
        lemma_filter_keeps(m[k], |p: LightPost| !ids.contains(p.post_id), kind);
    }
    if map_fits_kind(m, kind) {
        assert forall|k: i64, i: int| t.contains_key(k) && 0 <= i < t[k].len() implies #[trigger] fits_kind(t[k][i], kind) by {
            lemma_deque_fits(m, k, kind);
        }
    }
}

/// A purge keeps every deque ordered oldest first and every post in the map of
/// its kind.
pub proof fn lemma_purge_keeps(v: PostStoreView, ids: Set<i64>)
    ensures
        store_sorted(v) ==> store_sorted(purge_view(v, ids)),
        store_kinds(v) ==> store_kinds(purge_view(v, ids)),
{
    lemma_purge_map_keeps(v.original, ids, true, PostKind::Original);
    lemma_purge_map_keeps(v.secondary, ids, false, PostKind::Secondary);
    lemma_purge_map_keeps(v.video, ids, false, PostKind::Video);
}

/// Sorting a map keeps its posts fitting `kind`.
proof fn lemma_sorted_map_keeps(m: Map<i64, Seq<LightPost>>, m2: Map<i64, Seq<LightPost>>, kind: PostKind)
    requires
        sorted_map_of(m, m2),
    ensures
        map_sorted(m2),
        map_fits_kind(m, kind) ==> map_fits_kind(m2, kind),
{
    broadcast use vstd::seq_lib::group_to_multiset_ensures;
    if map_fits_kind(m, kind) {
        assert forall|k: i64, i: int| m2.contains_key(k) && 0 <= i < m2[k].len() implies #[trigger] fits_kind(m2[k][i], kind) by {
            assert(m.contains_key(k));
            assert(m2[k].contains(m2[k][i]));
            assert(m2[k].to_multiset().count(m2[k][i]) > 0);
            assert(m[k].contains(m2[k][i]));
            let t = choose|t: int| 0 <= t < m[k].len() && m[k][t] == m2[k][i];
        }
    }
}

/// Sorting every deque leaves every deque ordered oldest first and keeps every
/// post in the map of its kind.
pub proof fn lemma_sort_keeps(v: PostStoreView, w: PostStoreView)
    requires
        sorted_view_of(v, w),
    ensures
        store_sorted(w),
        store_kinds(v) ==> store_kinds(w),
{
    lemma_sorted_map_keeps(v.original, w.original, PostKind::Original);
    lemma_sorted_map_keeps(v.secondary, w.secondary, PostKind::Secondary);
    lemma_sorted_map_keeps(v.video, w.video, PostKind::Video);
}

/// What a retrieval takes from one author's deque fits every kind that the
/// deque's posts fit.
proof fn lemma_selection_fits(posts: Seq<LightPost>, scan: nat, max_per_user: nat, rules: ServeRules, kind: PostKind)
    requires
        all_fit(posts, kind),
    ensures
        all_fit(user_selection(posts, scan, max_per_user, rules), kind),
{
    let nf = newest_first(posts);
    assert forall|i: int| 0 <= i < nf.len() implies #[trigger] fits_kind(nf[i], kind) by {
        assert(nf[i] == posts[posts.len() - 1 - i]);
    }
    let a = at_most(nf, scan);
    assert forall|i: int| 0 <= i < a.len() implies #[trigger] fits_kind(a[i], kind) by {
        assert(a[i] == nf[i]);
    }
    let f = |p: LightPost| rules.allows(p);
    lemma_filter_keeps(a, f, kind);
    let b = a.filter(f);
    let c = at_most(b, max_per_user);
    assert forall|i: int| 0 <= i < c.len() implies #[trigger] fits_kind(c[i], kind) by {
        assert(c[i] == b[i]);
    }
}

/// What a retrieval returns from a map fits every kind that the map's posts fit.
proof fn lemma_gather_fits(m: Map<i64, Seq<LightPost>>, users: Seq<i64>, scan: nat, max_per_user: nat, rules: ServeRules, kind: PostKind)
    requires
        map_fits_kind(m, kind),
    ensures
        all_fit(gather(m, users, scan, max_per_user, rules), kind),
    decreases users.len(),
{
    if users.len() > 0 {
        lemma_gather_fits(m, users.drop_last(), scan, max_per_user, rules, kind);
        let head = gather(m, users.drop_last(), scan, max_per_user, rules);
        let last = users.last();
        let g = gather(m, users, scan, max_per_user, rules);
        if m.contains_key(last) {
            lemma_deque_fits(m, last, kind);
            lemma_selection_fits(m[last], scan, max_per_user, rules, kind);
            let tail = user_selection(m[last], scan, max_per_user, rules);
            assert forall|i: int| 0 <= i < g.len() implies #[trigger] fits_kind(g[i], kind) by {
                if i < head.len() {
                    assert(g[i] == head[i]);
                } else {
                    assert(g[i] == tail[i - head.len()]);
                }
            }
        } else {
            assert(g =~= head);
        }
    }
}

/// A video retrieval from a store whose posts are each in the map of their kind
/// returns only original posts with a video.
pub proof fn lemma_videos_served_are_videos(v: PostStoreView, users: Seq<i64>, exclude: Set<i64>, request_user_id: i64, posts: Seq<LightPost>)
    requires
        store_kinds(v),
        videos_served(v, users, exclude, request_user_id, posts),
    ensures
        forall|i: int| 0 <= i < posts.len() ==> (#[trigger] posts[i]).is_original() && posts[i].has_video,
{
    let reached = choose|reached: int| {
        &&& 0 <= reached <= users.len()
        &&& (v.request_timeout_ms == 0 ==> reached == users.len())
        &&& posts == gather(
            v.video,
            users.take(reached),
            crate::config::MAX_TINY_POSTS_PER_USER_SCAN as nat,
            crate::config::MAX_VIDEO_POSTS_PER_AUTHOR as nat,
            ServeRules { exclude, deleted: v.deleted, following: Set::empty(), request_user_id },
        )
    };
    lemma_gather_fits(
        v.video,
        users.take(reached),
        crate::config::MAX_TINY_POSTS_PER_USER_SCAN as nat,
        crate::config::MAX_VIDEO_POSTS_PER_AUTHOR as nat,
        ServeRules { exclude, deleted: v.deleted, following: Set::empty(), request_user_id },
        PostKind::Video,
    );
    assert forall|i: int| 0 <= i < posts.len() implies (#[trigger] posts[i]).is_original() && posts[i].has_video by {
        assert(fits_kind(posts[i], PostKind::Video));
    }
}

/// Some deque of `m` holds `q`.
pub open spec fn holds_post(m: Map<i64, Seq<LightPost>>, q: LightPost) -> bool {
    exists|k: i64, i: int| m.contains_key(k) && 0 <= i < m[k].len() && #[trigger] m[k][i] == q
}

/// Placing `p` in a map adds no post but `p`.
proof fn lemma_place_in_map_adds_only(m: Map<i64, Seq<LightPost>>, a: i64, dq2: Seq<LightPost>, p: LightPost, q: LightPost)
    requires
        dq2 == place_post(deque_or_empty(m, a), p) || dq2 == deque_or_empty(m, a),
        holds_post(m.insert(a, dq2), q),
    ensures
        holds_post(m, q) || q == p,
{
    let dq = deque_or_empty(m, a);
    lemma_place_post(dq, p);
    let m2 = m.insert(a, dq2);
    let (k, i) = choose|k: i64, i: int| m2.contains_key(k) && 0 <= i < m2[k].len() && #[trigger] m2[k][i] == q;
    if k == a {
        if q != p {
            if dq2 == place_post(dq, p) {
                assert(dq.contains(q));
            } else {
                assert(dq[i] == q);
            }
            let t = choose|t: int| 0 <= t < dq.len() && dq[t] == q;
            assert(m.contains_key(a));
            assert(m[a][t] == q);
        }
    } else {
        assert(m[k][i] == q);
    }
}

/// Taking in a post adds no post but that one to any map.
proof fn lemma_insert_adds_only(v: PostStoreView, p: LightPost, q: LightPost)
    ensures
        holds_post(insert_one(v, p).original, q) ==> holds_post(v.original, q) || q == p,
        holds_post(insert_one(v, p).secondary, q) ==> holds_post(v.secondary, q) || q == p,
        holds_post(insert_one(v, p).video, q) ==> holds_post(v.video, q) || q == p,
{
    let w = insert_one(v, p);
    if !v.deleted.contains(p.post_id) {
        if p.is_original() {
            let dq = deque_or_empty(v.original, p.author_id);
            if holds_post(w.original, q) {
                if duplicate_at_place(dq, p) {
                    lemma_place_in_map_adds_only(v.original, p.author_id, dq, p, q);
                } else {
                    lemma_place_in_map_adds_only(v.original, p.author_id, place_post(dq, p), p, q);
                }
            }
            if holds_post(w.video, q) && p.has_video && !duplicate_at_place(dq, p) {
                lemma_place_in_map_adds_only(v.video, p.author_id, place_post(deque_or_empty(v.video, p.author_id), p), p, q);
            }
        } else {
            let dq = deque_or_empty(v.secondary, p.author_id);
            if holds_post(w.secondary, q) {
                if duplicate_at_place(dq, p) {
                    lemma_place_in_map_adds_only(v.secondary, p.author_id, dq, p, q);
                } else {
                    lemma_place_in_map_adds_only(v.secondary, p.author_id, place_post(dq, p), p, q);
                }
            }
        }
    }
}

/// Taking in a run of posts adds no post but posts of the run to any map.
pub proof fn lemma_insert_all_adds_only(v: PostStoreView, posts: Seq<LightPost>, q: LightPost)
    ensures
        holds_post(insert_all(v, posts).original, q) ==> holds_post(v.original, q) || posts.contains(q),
        holds_post(insert_all(v, posts).secondary, q) ==> holds_post(v.secondary, q) || posts.contains(q),
        holds_post(insert_all(v, posts).video, q) ==> holds_post(v.video, q) || posts.contains(q),
    decreases posts.len(),
{
    if posts.len() > 0 {
        let init = posts.drop_last();
        lemma_insert_all_adds_only(v, init, q);
        lemma_insert_adds_only(insert_all(v, init), posts.last(), q);
        if init.contains(q) {
            let t = choose|t: int| 0 <= t < init.len() && init[t] == q;
            assert(posts[t] == q);
        }
        assert(posts[posts.len() - 1] == posts.last());
    }
}

/// A batch taken in at `now` adds to the store only posts of the batch that
/// were created before `now` and within the retention window.
pub proof fn lemma_insert_posts_adds_only_retained(v: PostStoreView, posts: Seq<LightPost>, now: i64, batch: Seq<LightPost>, q: LightPost)
    requires
        batch.to_multiset() == posts.filter(|p: LightPost| within_retention(p, now, v.retention_seconds)).to_multiset(),
    ensures
        holds_post(insert_all(v, batch).original, q) ==> holds_post(v.original, q)
            || (posts.contains(q) && within_retention(q, now, v.retention_seconds)),
        holds_post(insert_all(v, batch).secondary, q) ==> holds_post(v.secondary, q)
            || (posts.contains(q) && within_retention(q, now, v.retention_seconds)),
        holds_post(insert_all(v, batch).video, q) ==> holds_post(v.video, q)
            || (posts.contains(q) && within_retention(q, now, v.retention_seconds)),
{
    broadcast use vstd::seq_lib::group_to_multiset_ensures;
    broadcast use vstd::seq_lib::group_filter_ensures;
    lemma_insert_all_adds_only(v, batch, q);
    let f = |p: LightPost| within_retention(p, now, v.retention_seconds);
    if batch.contains(q) {
        assert(batch.to_multiset().count(q) > 0);
        assert(posts.filter(f).contains(q));
        posts.lemma_filter_contains_rev(f, q);
        let t = choose|t: int| 0 <= t < posts.filter(f).len() && posts.filter(f)[t] == q;
        assert(f(posts.filter(f)[t]));
    }
}

/// The posts of `s` that have a video, in their order.
pub open spec fn with_video(s: Seq<LightPost>) -> Seq<LightPost> {
    s.filter(|p: LightPost| p.has_video)
}

/// Each author's video deque holds the same posts as the posts with a video in
/// the author's original deque.
pub open spec fn video_mirrors(v: PostStoreView) -> bool {
    forall|a: i64| (#[trigger] deque_or_empty(v.video, a)).to_multiset()
        == with_video(deque_or_empty(v.original, a)).to_multiset()
}

/// No video post kept under the `DELETE_EVENT_KEY` author has an id in `ids`.
pub open spec fn delete_key_videos_outside(v: PostStoreView, ids: Set<i64>) -> bool {
    forall|i: int| 0 <= i < deque_or_empty(v.video, DELETE_EVENT_KEY).len()
        ==> !ids.contains(#[trigger] deque_or_empty(v.video, DELETE_EVENT_KEY)[i].post_id)
}

/// No post of `m` was created before the Unix epoch.
pub open spec fn times_not_negative(m: Map<i64, Seq<LightPost>>) -> bool {
    forall|k: i64, i: int| #![trigger m[k][i]] m.contains_key(k) && 0 <= i < m[k].len() ==> m[k][i].created_at >= 0
}

/// The posts that a filter keeps, counted, are the posts counted and then
/// filtered.
proof fn lemma_filter_multiset(s: Seq<LightPost>, g: spec_fn(LightPost) -> bool)
    ensures
        s.filter(g).to_multiset() == s.to_multiset().filter(g),
    decreases s.len(),
{
    broadcast use {vstd::seq_lib::group_to_multiset_ensures, vstd::multiset::group_multiset_axioms};
    reveal_with_fuel(Seq::filter, 1);
    if s.len() == 0 {
        assert(s.filter(g).to_multiset() =~= s.to_multiset().filter(g));
    } else {
        let d = s.drop_last();
        lemma_filter_multiset(d, g);
        assert(s =~= d.push(s.last()));
        assert(s.filter(g).to_multiset() =~= s.to_multiset().filter(g));
    }
}

/// Two filters of a multiset commute.
proof fn lemma_multiset_filters_commute(m: Multiset<LightPost>, f: spec_fn(LightPost) -> bool, g: spec_fn(LightPost) -> bool)
    ensures
        m.filter(f).filter(g) == m.filter(g).filter(f),
{
    broadcast use vstd::multiset::group_multiset_axioms;
    assert(m.filter(f).filter(g) =~= m.filter(g).filter(f));
}

/// Filters that keep every post or none of `s`.
proof fn lemma_filter_all_or_none(s: Seq<LightPost>, f: spec_fn(LightPost) -> bool)
    ensures
        (forall|i: int| 0 <= i < s.len() ==> #[trigger] f(s[i])) ==> s.filter(f) == s,
        (forall|i: int| 0 <= i < s.len() ==> !#[trigger] f(s[i])) ==> s.filter(f) == Seq::<LightPost>::empty(),
    decreases s.len(),
{
    reveal_with_fuel(Seq::filter, 1);
    if s.len() > 0 {
        let d = s.drop_last();
        lemma_filter_all_or_none(d, f);
        if forall|i: int| 0 <= i < s.len() ==> #[trigger] f(s[i]) {
            assert forall|i: int| 0 <= i < d.len() implies #[trigger] f(d[i]) by {
                assert(d[i] == s[i]);
            }
            assert(f(s[s.len() - 1]));
            assert(d.push(s.last()) =~= s);
        }
        if forall|i: int| 0 <= i < s.len() ==> !#[trigger] f(s[i]) {
            assert forall|i: int| 0 <= i < d.len() implies !#[trigger] f(d[i]) by {
                assert(d[i] == s[i]);
            }
            assert(!f(s[s.len() - 1]));
        }
    }
}

/// Taking in a post keeps each video deque the mirror of its author's original
/// posts with a video.
pub proof fn lemma_insert_keeps_mirror(v: PostStoreView, p: LightPost)
    requires
        video_mirrors(v),
    ensures
        video_mirrors(insert_one(v, p)),
{
    broadcast use vstd::multiset::group_multiset_axioms;
    let w = insert_one(v, p);
    let hv = |q: LightPost| q.has_video;
    if !v.deleted.contains(p.post_id) && p.is_original() {
        let a = p.author_id;
        let dq = deque_or_empty(v.original, a);
        if !duplicate_at_place(dq, p) {
            lemma_place_post(dq, p);
            lemma_place_post(deque_or_empty(v.video, a), p);
            assert forall|b: i64| (#[trigger] deque_or_empty(w.video, b)).to_multiset()
                == with_video(deque_or_empty(w.original, b)).to_multiset() by {
                if b == a {
                    lemma_filter_multiset(dq, hv);
                    lemma_filter_multiset(place_post(dq, p), hv);
                    assert(deque_or_empty(w.original, b) == place_post(dq, p));
                    assert(dq.to_multiset().insert(p).filter(hv) =~= if p.has_video {
                        dq.to_multiset().filter(hv).insert(p)
                    } else {
                        dq.to_multiset().filter(hv)
                    });
                } else {
                    assert(deque_or_empty(w.original, b) == deque_or_empty(v.original, b));
                    assert(deque_or_empty(w.video, b) == deque_or_empty(v.video, b));
                }
            }
        } else {
            assert forall|b: i64| (#[trigger] deque_or_empty(w.video, b)).to_multiset()
                == with_video(deque_or_empty(w.original, b)).to_multiset() by {
                assert(deque_or_empty(w.original, b) == deque_or_empty(v.original, b));
            }
        }
    } else {
        assert forall|b: i64| (#[trigger] deque_or_empty(w.video, b)).to_multiset()
            == with_video(deque_or_empty(w.original, b)).to_multiset() by {
            assert(deque_or_empty(w.original, b) == deque_or_empty(v.original, b));
            assert(deque_or_empty(w.video, b) == deque_or_empty(v.video, b));
        }
    }
}

/// Taking in a run of posts keeps each video deque the mirror of its author's
/// original posts with a video.
pub proof fn lemma_insert_all_keeps_mirror(v: PostStoreView, posts: Seq<LightPost>)
    requires
        video_mirrors(v),
    ensures
        video_mirrors(insert_all(v, posts)),
    decreases posts.len(),
{
    if posts.len() > 0 {
        lemma_insert_all_keeps_mirror(v, posts.drop_last());
        lemma_insert_keeps_mirror(insert_all(v, posts.drop_last()), posts.last());
    }
}

/// Recording delete events keeps each video deque the mirror of its author's
/// original posts with a video.
pub proof fn lemma_delete_all_keeps_mirror(v: PostStoreView, events: Seq<TweetDeleteEvent>)
    requires
        video_mirrors(v),
    ensures
        video_mirrors(delete_all(v, events)),
    decreases events.len(),
{
    if events.len() > 0 {
        lemma_delete_all_keeps_mirror(v, events.drop_last());
        let u = delete_all(v, events.drop_last());
        let w = delete_all(v, events);
        let hv = |q: LightPost| q.has_video;
        let sentinel = tombstone_post(events.last());
        assert forall|b: i64| (#[trigger] deque_or_empty(w.video, b)).to_multiset()
            == with_video(deque_or_empty(w.original, b)).to_multiset() by {
            assert(deque_or_empty(u.video, b).to_multiset() == with_video(deque_or_empty(u.original, b)).to_multiset());
            if b == DELETE_EVENT_KEY {
                let uo = deque_or_empty(u.original, b);
                lemma_place_post(uo, sentinel);
                lemma_filter_multiset(uo, hv);
                lemma_filter_multiset(place_post(uo, sentinel), hv);
                assert(deque_or_empty(w.original, b) == place_post(uo, sentinel));
                assert(uo.to_multiset().insert(sentinel).filter(hv) =~= uo.to_multiset().filter(hv)) by {
                    broadcast use vstd::multiset::group_multiset_axioms;
                }
            } else {
                assert(deque_or_empty(w.original, b) == deque_or_empty(u.original, b));
            }
        }
    }
}

/// A purge keeps each video deque the mirror of its author's original posts
/// with a video.
pub proof fn lemma_purge_keeps_mirror(v: PostStoreView, ids: Set<i64>)
    requires
        video_mirrors(v),
        delete_key_videos_outside(v, ids),
    ensures
        video_mirrors(purge_view(v, ids)),
{
    let w = purge_view(v, ids);
    let hv = |q: LightPost| q.has_video;
    let g = |q: LightPost| !ids.contains(q.post_id);
    assert forall|b: i64| (#[trigger] deque_or_empty(w.video, b)).to_multiset()
        == with_video(deque_or_empty(w.original, b)).to_multiset() by {
        let od = deque_or_empty(v.original, b);
        let vd = deque_or_empty(v.video, b);
        reveal_with_fuel(Seq::filter, 1);
        assert(deque_or_empty(w.video, b) == purge_ids(vd, ids));
        if b == DELETE_EVENT_KEY {
            assert(deque_or_empty(w.original, b) == od);
            assert forall|i: int| 0 <= i < vd.len() implies #[trigger] g(vd[i]) by {
                assert(!ids.contains(deque_or_empty(v.video, DELETE_EVENT_KEY)[i].post_id));
            }
            lemma_filter_all_or_none(vd, g);
        } else {
            assert(deque_or_empty(w.original, b) == purge_ids(od, ids));
        }
        lemma_filter_multiset(vd, g);
        lemma_filter_multiset(od, g);
        lemma_filter_multiset(od, hv);
        lemma_filter_multiset(od.filter(g), hv);
        lemma_multiset_filters_commute(od.to_multiset(), hv, g);
    }
}

/// Sorting every deque keeps each video deque the mirror of its author's
/// original posts with a video.
pub proof fn lemma_sort_keeps_mirror(v: PostStoreView, w: PostStoreView)
    requires
        video_mirrors(v),
        sorted_view_of(v, w),
    ensures
        video_mirrors(w),
{
    let hv = |q: LightPost| q.has_video;
    assert forall|b: i64| (#[trigger] deque_or_empty(w.video, b)).to_multiset()
        == with_video(deque_or_empty(w.original, b)).to_multiset() by {
        lemma_filter_multiset(deque_or_empty(v.original, b), hv);
        lemma_filter_multiset(deque_or_empty(w.original, b), hv);
        assert(deque_or_empty(w.original, b).to_multiset() == deque_or_empty(v.original, b).to_multiset());
        assert(deque_or_empty(w.video, b).to_multiset() == deque_or_empty(v.video, b).to_multiset());
    }
}

/// A post that a trim at `now` drops wherever it stands.
pub open spec fn stale(p: LightPost, now: u64, retention_seconds: u64) -> bool {
    age_known(p, now) && expired(p, now, retention_seconds)
}

/// On a deque ordered oldest first with no post from before the Unix epoch, a
/// trim drops exactly the stale posts.
proof fn lemma_trim_is_filter(s: Seq<LightPost>, now: u64, retention_seconds: u64)
    requires
        sorted_oldest_first(s),
        trim_safe(s, now, retention_seconds),
        forall|i: int| 0 <= i < s.len() ==> #[trigger] s[i].created_at >= 0,
    ensures
        trim_posts(s, now, retention_seconds) == s.filter(|p: LightPost| !stale(p, now, retention_seconds)),
{
    let f = |p: LightPost| !stale(p, now, retention_seconds);
    crate::laws::lemma_trim_pops_expired(s, now, retention_seconds);
    crate::laws::lemma_trimmed_deque_safe(s, now, retention_seconds);
    let e = expired_prefix_len(s, now, retention_seconds) as int;
    let head = s.take(e);
    let tail = s.skip(e);
    assert(s == head + tail);
    Seq::filter_distributes_over_add(head, tail, f);
    assert forall|i: int| 0 <= i < head.len() implies !#[trigger] f(head[i]) by {
        assert(head[i] == s[i]);
    }
    if tail.len() > 0 {
        assert(tail[0] == s[e]);
        assert(age_known(s[e], now));
        assert forall|i: int| 0 <= i < tail.len() implies #[trigger] f(tail[i]) by {
            assert(tail[i] == s[e + i]);
            assert(s[e].created_at <= s[e + i].created_at);
        }
    }
    lemma_filter_all_or_none(head, f);
    lemma_filter_all_or_none(tail, f);
    assert(head.filter(f) + tail.filter(f) =~= tail);
}

/// The deque of `a` after a trim of `m` is the trimmed deque of `a`.
proof fn lemma_trim_map_deque(m: Map<i64, Seq<LightPost>>, a: i64, now: u64, retention_seconds: u64)
    ensures
        deque_or_empty(trim_map(m, now, retention_seconds), a) == trim_posts(deque_or_empty(m, a), now, retention_seconds),
{
    let t = trim_posts(deque_or_empty(m, a), now, retention_seconds);
    if !trim_map(m, now, retention_seconds).contains_key(a) {
        assert(t =~= Seq::<LightPost>::empty());
    }
}

/// A trim at `now` keeps each video deque the mirror of its author's original
/// posts with a video, when every deque is ordered oldest first, the trim can
/// run, and no post is from before the Unix epoch.
pub proof fn lemma_trim_keeps_mirror(v: PostStoreView, now: u64)
    requires
        video_mirrors(v),
        store_sorted(v),
        trim_ready(v, now),
        times_not_negative(v.original),
        times_not_negative(v.video),
    ensures
        video_mirrors(trim_view(v, now)),
{
    let r = v.retention_seconds;
    let w = trim_view(v, now);
    let hv = |q: LightPost| q.has_video;
    let ns = |p: LightPost| !stale(p, now, r);
    assert forall|b: i64| (#[trigger] deque_or_empty(w.video, b)).to_multiset()
        == with_video(deque_or_empty(w.original, b)).to_multiset() by {
        let od = deque_or_empty(v.original, b);
        let vd = deque_or_empty(v.video, b);
        lemma_trim_map_deque(v.original, b, now, r);
        lemma_trim_map_deque(v.video, b, now, r);
        assert(sorted_oldest_first(od) && sorted_oldest_first(vd));
        assert(trim_safe(od, now, r) && trim_safe(vd, now, r));
        assert forall|i: int| 0 <= i < od.len() implies #[trigger] od[i].created_at >= 0 by {
            assert(v.original[b][i].created_at >= 0);
        }
        assert forall|i: int| 0 <= i < vd.len() implies #[trigger] vd[i].created_at >= 0 by {
            assert(v.video[b][i].created_at >= 0);
        }
        lemma_trim_is_filter(od, now, r);
        lemma_trim_is_filter(vd, now, r);
        lemma_filter_multiset(vd, ns);
        lemma_filter_multiset(od, ns);
        lemma_filter_multiset(od, hv);
        lemma_filter_multiset(od.filter(ns), hv);
        lemma_multiset_filters_commute(od.to_multiset(), hv, ns);
    }
}

/// Sorting a map keeps its posts from before the Unix epoch out.
pub proof fn lemma_sort_keeps_times(m: Map<i64, Seq<LightPost>>, m2: Map<i64, Seq<LightPost>>)
    requires
        sorted_map_of(m, m2),
        times_not_negative(m),
    ensures
        times_not_negative(m2),
{
    broadcast use vstd::seq_lib::group_to_multiset_ensures;
    assert forall|k: i64, i: int| m2.contains_key(k) && 0 <= i < m2[k].len() implies #[trigger] m2[k][i].created_at >= 0 by {
        assert(m.contains_key(k));
        assert(m2[k].contains(m2[k][i]));
        assert(m2[k].to_multiset().count(m2[k][i]) > 0);
        assert(m[k].contains(m2[k][i]));
        let t = choose|t: int| 0 <= t < m[k].len() && m[k][t] == m2[k][i];
        assert(m[k][t].created_at >= 0);
    }
}

/// A store without posts mirrors its videos trivially.
pub proof fn lemma_empty_store_mirrors(v: PostStoreView)
    requires
        v.original.dom() == Set::<i64>::empty(),
        v.video.dom() == Set::<i64>::empty(),
    ensures
        video_mirrors(v),
{
    assert forall|b: i64| (#[trigger] deque_or_empty(v.video, b)).to_multiset()
        == with_video(deque_or_empty(v.original, b)).to_multiset() by {
        assert(!v.original.contains_key(b) && !v.video.contains_key(b));
        reveal_with_fuel(Seq::filter, 1);
        assert(with_video(deque_or_empty(v.original, b)) =~= Seq::<LightPost>::empty());
    }
}

/// Some post of `s` has the id `id`.
pub open spec fn records_id(s: Seq<LightPost>, id: i64) -> bool {
    exists|i: int| 0 <= i < s.len() && #[trigger] s[i].post_id == id
}

/// Every tombstone has its delete event in the `DELETE_EVENT_KEY` deque of the
/// original posts, so that a trim can drop the tombstone once the event expires.
pub open spec fn tombstones_recorded(v: PostStoreView) -> bool {
    forall|id: i64| #[trigger] v.deleted.contains(id) ==> records_id(deque_or_empty(v.original, DELETE_EVENT_KEY), id)
}

/// Placing a post keeps the ids a deque records and records the post's id.
proof fn lemma_place_records(s: Seq<LightPost>, p: LightPost, id: i64)
    ensures
        records_id(s, id) ==> records_id(place_post(s, p), id),
        records_id(place_post(s, p), p.post_id),
{
    lemma_place_post(s, p);
    crate::store_spec::lemma_insert_pos(s, p.created_at);
    let k = crate::store_spec::insert_pos(s, p.created_at) as int;
    let r = place_post(s, p);
    assert(r[k].post_id == p.post_id);
    if records_id(s, id) {
        let i = choose|i: int| 0 <= i < s.len() && #[trigger] s[i].post_id == id;
        if i < k {
            assert(r[i] == s[i]);
        } else {
            assert(r[i + 1] == s[i]);
        }
    }
}

/// A store without tombstones records them all trivially.
pub proof fn lemma_no_tombstones_recorded(v: PostStoreView)
    requires
        v.deleted == Set::<i64>::empty(),
    ensures
        tombstones_recorded(v),
{
}

/// Taking in a run of posts keeps every tombstone's delete event.
pub proof fn lemma_insert_all_keeps_records(v: PostStoreView, posts: Seq<LightPost>)
    requires
        tombstones_recorded(v),
    ensures
        tombstones_recorded(insert_all(v, posts)),
    decreases posts.len(),
{
    if posts.len() > 0 {
        lemma_insert_all_keeps_records(v, posts.drop_last());
        let u = insert_all(v, posts.drop_last());
        let p = posts.last();
        let w = insert_one(u, p);
        let dq = deque_or_empty(u.original, DELETE_EVENT_KEY);
        assert forall|id: i64| #[trigger] w.deleted.contains(id) implies records_id(deque_or_empty(w.original, DELETE_EVENT_KEY), id) by {
            lemma_place_records(dq, p, id);
        }
    }
}

/// Recording a run of delete events keeps every tombstone's delete event and
/// records each new one.
pub proof fn lemma_delete_all_keeps_records(v: PostStoreView, events: Seq<TweetDeleteEvent>)
    requires
        tombstones_recorded(v),
    ensures
        tombstones_recorded(delete_all(v, events)),
    decreases events.len(),
{
    if events.len() > 0 {
        lemma_delete_all_keeps_records(v, events.drop_last());
        let u = delete_all(v, events.drop_last());
        let e = events.last();
        let w = delete_all(v, events);
        let dq = deque_or_empty(u.original, DELETE_EVENT_KEY);
        assert forall|id: i64| #[trigger] w.deleted.contains(id) implies records_id(deque_or_empty(w.original, DELETE_EVENT_KEY), id) by {
            lemma_place_records(dq, tombstone_post(e), id);
        }
    }
}

/// A trim keeps the delete event of every tombstone that it keeps.
pub proof fn lemma_trim_keeps_records(v: PostStoreView, now: u64)
    requires
        tombstones_recorded(v),
    ensures
        tombstones_recorded(trim_view(v, now)),
{
    let r = v.retention_seconds;
    let w = trim_view(v, now);
    let dq = deque_or_empty(v.original, DELETE_EVENT_KEY);
    lemma_trim_map_deque(v.original, DELETE_EVENT_KEY, now, r);
    crate::laws::lemma_trim_pops_expired(dq, now, r);
    let e = expired_prefix_len(dq, now, r) as int;
    assert forall|id: i64| #[trigger] w.deleted.contains(id) implies records_id(deque_or_empty(w.original, DELETE_EVENT_KEY), id) by {
        assert(v.deleted.contains(id));
        let i = choose|i: int| 0 <= i < dq.len() && #[trigger] dq[i].post_id == id;
        assert(v.original.contains_key(DELETE_EVENT_KEY));
        assert(dq == v.original[DELETE_EVENT_KEY]);
        if i < e {
            assert(crate::store_spec::ids_of_prefix(dq, e).contains(id));
            assert(crate::store_spec::expired_tombstones(v.original, now, r).contains(id));
        }
        assert(trim_posts(dq, now, r)[i - e] == dq[i]);
    }
}

/// A purge keeps every tombstone's delete event: it spares their deque.
pub proof fn lemma_purge_keeps_records(v: PostStoreView, ids: Set<i64>)
    requires
        tombstones_recorded(v),
    ensures
        tombstones_recorded(purge_view(v, ids)),
{
    let w = purge_view(v, ids);
    assert(deque_or_empty(w.original, DELETE_EVENT_KEY) == deque_or_empty(v.original, DELETE_EVENT_KEY));
}

/// Sorting every deque keeps every tombstone's delete event.
pub proof fn lemma_sort_keeps_records(v: PostStoreView, w: PostStoreView)
    requires
        tombstones_recorded(v),
        sorted_view_of(v, w),
    ensures
        tombstones_recorded(w),
{
    broadcast use vstd::seq_lib::group_to_multiset_ensures;
    assert forall|id: i64| #[trigger] w.deleted.contains(id) implies records_id(deque_or_empty(w.original, DELETE_EVENT_KEY), id) by {
        let dq = deque_or_empty(v.original, DELETE_EVENT_KEY);
        let dq2 = deque_or_empty(w.original, DELETE_EVENT_KEY);
        let i = choose|i: int| 0 <= i < dq.len() && #[trigger] dq[i].post_id == id;
        assert(v.original.contains_key(DELETE_EVENT_KEY));
        assert(dq.contains(dq[i]));
        assert(dq.to_multiset().count(dq[i]) > 0);
        assert(dq2.to_multiset().count(dq[i]) > 0);
        assert(dq2.contains(dq[i]));
        let t = choose|t: int| 0 <= t < dq2.len() && dq2[t] == dq[i];
        assert(dq2[t].post_id == id);
    }
}

/// Sorting keeps the video posts of the `DELETE_EVENT_KEY` author clear of the
/// tombstones.
pub proof fn lemma_sort_keeps_delete_key_videos(v: PostStoreView, w: PostStoreView)
    requires
        sorted_view_of(v, w),
        delete_key_videos_outside(v, v.deleted),
    ensures
        delete_key_videos_outside(w, w.deleted),
{
    broadcast use vstd::seq_lib::group_to_multiset_ensures;
    let d = deque_or_empty(v.video, DELETE_EVENT_KEY);
    let d2 = deque_or_empty(w.video, DELETE_EVENT_KEY);
    assert forall|i: int| 0 <= i < d2.len() implies !w.deleted.contains(#[trigger] d2[i].post_id) by {
        assert(w.video.contains_key(DELETE_EVENT_KEY));
        assert(d2.contains(d2[i]));
        assert(d2.to_multiset().count(d2[i]) > 0);
        assert(d.to_multiset().count(d2[i]) > 0);
        assert(d.contains(d2[i]));
        let t = choose|t: int| 0 <= t < d.len() && d[t] == d2[i];
        assert(!v.deleted.contains(d[t].post_id));
    }
}

/// A trim keeps the video posts of the `DELETE_EVENT_KEY` author clear of the
/// tombstones.
pub proof fn lemma_trim_keeps_delete_key_videos(v: PostStoreView, now: u64)
    requires
        delete_key_videos_outside(v, v.deleted),
    ensures
        delete_key_videos_outside(trim_view(v, now), trim_view(v, now).deleted),
{
    let r = v.retention_seconds;
    let w = trim_view(v, now);
    let d = deque_or_empty(v.video, DELETE_EVENT_KEY);
    lemma_trim_map_deque(v.video, DELETE_EVENT_KEY, now, r);
    crate::laws::lemma_trim_pops_expired(d, now, r);
    let e = expired_prefix_len(d, now, r) as int;
    assert forall|i: int| 0 <= i < deque_or_empty(w.video, DELETE_EVENT_KEY).len()
        implies !w.deleted.contains(#[trigger] deque_or_empty(w.video, DELETE_EVENT_KEY)[i].post_id) by {
        assert(deque_or_empty(w.video, DELETE_EVENT_KEY)[i] == d[e + i]);
        assert(!v.deleted.contains(d[e + i].post_id));
    }
}

/// A video retrieval returns at most `MAX_VIDEO_POSTS_PER_AUTHOR` posts per
/// requested author, each among the `MAX_TINY_POSTS_PER_USER_SCAN` newest posts
/// of a requested author's video deque, and no post that the request excludes,
/// that is tombstoned, or that retweets the requester's own post.
pub proof fn lemma_videos_served_bounded(v: PostStoreView, users: Seq<i64>, exclude: Set<i64>, request_user_id: i64, posts: Seq<LightPost>)
    requires
        videos_served(v, users, exclude, request_user_id, posts),
    ensures
        posts.len() <= users.len() * MAX_VIDEO_POSTS_PER_AUTHOR,
        forall|i: int| 0 <= i < posts.len()
            ==> from_requested_author(v.video, users, MAX_TINY_POSTS_PER_USER_SCAN as nat, #[trigger] posts[i]),
        forall|i: int| 0 <= i < posts.len() ==> {
            &&& !exclude.contains(#[trigger] posts[i].post_id)
            &&& !v.deleted.contains(posts[i].post_id)
            &&& !(posts[i].is_retweet && posts[i].source_user_id == Some(request_user_id))
        },
{
    let rules = ServeRules { exclude, deleted: v.deleted, following: Set::empty(), request_user_id };
    let reached = choose|reached: int| {
        &&& 0 <= reached <= users.len()
        &&& (v.request_timeout_ms == 0 ==> reached == users.len())
        &&& posts == gather(v.video, users.take(reached), MAX_TINY_POSTS_PER_USER_SCAN as nat, MAX_VIDEO_POSTS_PER_AUTHOR as nat, rules)
    };
    let us = users.take(reached);
    lemma_gather_at_most_per_author(v.video, us, MAX_TINY_POSTS_PER_USER_SCAN as nat, MAX_VIDEO_POSTS_PER_AUTHOR as nat, rules);
    lemma_served_posts_respect_request(v.video, us, MAX_TINY_POSTS_PER_USER_SCAN as nat, MAX_VIDEO_POSTS_PER_AUTHOR as nat, rules);
    lemma_gather_from_requested_authors(v.video, us, MAX_TINY_POSTS_PER_USER_SCAN as nat, MAX_VIDEO_POSTS_PER_AUTHOR as nat, rules);
    assert forall|i: int| 0 <= i < posts.len()
        implies from_requested_author(v.video, users, MAX_TINY_POSTS_PER_USER_SCAN as nat, #[trigger] posts[i]) by {
        let g = gather(v.video, us, MAX_TINY_POSTS_PER_USER_SCAN as nat, MAX_VIDEO_POSTS_PER_AUTHOR as nat, rules);
        assert(posts[i] == g[i]);
        assert(from_requested_author(v.video, us, MAX_TINY_POSTS_PER_USER_SCAN as nat, g[i]));
        let u = choose|u: i64| #[trigger] us.contains(u) && v.video.contains_key(u)
            && among_newest(v.video[u], MAX_TINY_POSTS_PER_USER_SCAN as nat, g[i]);
        let t = choose|t: int| 0 <= t < us.len() && us[t] == u;
        assert(users[t] == u);
        assert(users.contains(u));
    }
    let k = MAX_VIDEO_POSTS_PER_AUTHOR as int;
    assert((reached as int) * k <= (users.len() as int) * k) by (nonlinear_arith)
        requires 0 <= reached <= users.len(), k >= 0;
    assert forall|i: int| 0 <= i < posts.len() implies {
        &&& !exclude.contains(#[trigger] posts[i].post_id)
        &&& !v.deleted.contains(posts[i].post_id)
        &&& !(posts[i].is_retweet && posts[i].source_user_id == Some(request_user_id))
    } by {
        assert(posts[i] == gather(v.video, us, MAX_TINY_POSTS_PER_USER_SCAN as nat, MAX_VIDEO_POSTS_PER_AUTHOR as nat, rules)[i]);
    }
}

/// A retrieval of all posts returns at most `MAX_ORIGINAL_POSTS_PER_AUTHOR`
/// original and `MAX_REPLY_POSTS_PER_AUTHOR` other posts per requested author,
/// each among the `MAX_TINY_POSTS_PER_USER_SCAN` newest posts of a requested
/// author's original or secondary deque, and no post that the request excludes,
/// that is tombstoned, or that retweets the requester's own post.
pub proof fn lemma_all_posts_served_bounded(v: PostStoreView, users: Seq<i64>, exclude: Set<i64>, request_user_id: i64, posts: Seq<LightPost>)
    requires
        all_posts_served(v, users, exclude, request_user_id, posts),
    ensures
        posts.len() <= users.len() * (MAX_ORIGINAL_POSTS_PER_AUTHOR + MAX_REPLY_POSTS_PER_AUTHOR),
        forall|i: int| 0 <= i < posts.len()
            ==> from_requested_author(v.original, users, MAX_TINY_POSTS_PER_USER_SCAN as nat, #[trigger] posts[i])
            || from_requested_author(v.secondary, users, MAX_TINY_POSTS_PER_USER_SCAN as nat, posts[i]),
        forall|i: int| 0 <= i < posts.len() ==> {
            &&& !exclude.contains(#[trigger] posts[i].post_id)
            &&& !v.deleted.contains(posts[i].post_id)
            &&& !(posts[i].is_retweet && posts[i].source_user_id == Some(request_user_id))
        },
{
    let r1 = ServeRules { exclude, deleted: v.deleted, following: Set::empty(), request_user_id };
    let r2 = ServeRules { exclude, deleted: v.deleted, following: users.to_set(), request_user_id };
    let scan = MAX_TINY_POSTS_PER_USER_SCAN as nat;
    let (ro, rs) = choose|ro: int, rs: int| {
        &&& 0 <= ro <= users.len()
        &&& 0 <= rs <= users.len()
        &&& (v.request_timeout_ms == 0 ==> ro == users.len() && rs == users.len())
        &&& posts == gather(v.original, users.take(ro), scan, MAX_ORIGINAL_POSTS_PER_AUTHOR as nat, r1)
            + gather(v.secondary, users.take(rs), scan, MAX_REPLY_POSTS_PER_AUTHOR as nat, r2)
    };
    let a = gather(v.original, users.take(ro), scan, MAX_ORIGINAL_POSTS_PER_AUTHOR as nat, r1);
    let b = gather(v.secondary, users.take(rs), scan, MAX_REPLY_POSTS_PER_AUTHOR as nat, r2);
    lemma_gather_at_most_per_author(v.original, users.take(ro), scan, MAX_ORIGINAL_POSTS_PER_AUTHOR as nat, r1);
    lemma_gather_at_most_per_author(v.secondary, users.take(rs), scan, MAX_REPLY_POSTS_PER_AUTHOR as nat, r2);
    lemma_served_posts_respect_request(v.original, users.take(ro), scan, MAX_ORIGINAL_POSTS_PER_AUTHOR as nat, r1);
    lemma_served_posts_respect_request(v.secondary, users.take(rs), scan, MAX_REPLY_POSTS_PER_AUTHOR as nat, r2);
    lemma_gather_from_requested_authors(v.original, users.take(ro), scan, MAX_ORIGINAL_POSTS_PER_AUTHOR as nat, r1);
    lemma_gather_from_requested_authors(v.secondary, users.take(rs), scan, MAX_REPLY_POSTS_PER_AUTHOR as nat, r2);
    assert forall|i: int| 0 <= i < posts.len()
        implies from_requested_author(v.original, users, scan, #[trigger] posts[i])
        || from_requested_author(v.secondary, users, scan, posts[i]) by {
        if i < a.len() {
            assert(posts[i] == a[i]);
            let us = users.take(ro);
            assert(from_requested_author(v.original, us, scan, a[i]));
            let u = choose|u: i64| #[trigger] us.contains(u) && v.original.contains_key(u) && among_newest(v.original[u], scan, a[i]);
            let t = choose|t: int| 0 <= t < us.len() && us[t] == u;
            assert(users[t] == u);
            assert(users.contains(u));
        } else {
            assert(posts[i] == b[i - a.len()]);
            let us = users.take(rs);
            assert(from_requested_author(v.secondary, us, scan, b[i - a.len()]));
            let u = choose|u: i64| #[trigger] us.contains(u) && v.secondary.contains_key(u) && among_newest(v.secondary[u], scan, b[i - a.len()]);
            let t = choose|t: int| 0 <= t < us.len() && us[t] == u;
            assert(users[t] == u);
            assert(users.contains(u));
        }
    }
    let n = users.len() as int;
    let ko = MAX_ORIGINAL_POSTS_PER_AUTHOR as int;
    let kr = MAX_REPLY_POSTS_PER_AUTHOR as int;
    assert((ro as int) * ko + (rs as int) * kr <= n * (ko + kr)) by (nonlinear_arith)
        requires 0 <= ro <= n, 0 <= rs <= n, ko >= 0, kr >= 0;
    assert forall|i: int| 0 <= i < posts.len() implies {
        &&& !exclude.contains(#[trigger] posts[i].post_id)
        &&& !v.deleted.contains(posts[i].post_id)
        &&& !(posts[i].is_retweet && posts[i].source_user_id == Some(request_user_id))
    } by {
        if i < a.len() {
            assert(posts[i] == a[i]);
        } else {
            assert(posts[i] == b[i - a.len()]);
        }
    }
}

/// Taking in a post that is not tombstoned, and whose id is in none of its
/// author's posts of its kind, adds exactly that post to its author's deque
/// (and to the video deque when it is an original post with a video); taking
/// in a tombstoned post changes nothing.
pub proof fn lemma_new_post_is_added(v: PostStoreView, p: LightPost)
    ensures
        v.deleted.contains(p.post_id) ==> insert_one(v, p) == v,
        !v.deleted.contains(p.post_id) && p.is_original() && !records_id(deque_or_empty(v.original, p.author_id), p.post_id) ==> {
            &&& insert_one(v, p).original[p.author_id].to_multiset()
                == deque_or_empty(v.original, p.author_id).to_multiset().insert(p)
            &&& (p.has_video ==> insert_one(v, p).video[p.author_id].to_multiset()
                == deque_or_empty(v.video, p.author_id).to_multiset().insert(p))
            &&& insert_one(v, p).secondary == v.secondary
            &&& insert_one(v, p).deleted == v.deleted
        },
        !v.deleted.contains(p.post_id) && !p.is_original() && !records_id(deque_or_empty(v.secondary, p.author_id), p.post_id) ==> {
            &&& insert_one(v, p).secondary[p.author_id].to_multiset()
                == deque_or_empty(v.secondary, p.author_id).to_multiset().insert(p)
            &&& insert_one(v, p).original == v.original
            &&& insert_one(v, p).video == v.video
            &&& insert_one(v, p).deleted == v.deleted
        },
{
    if !v.deleted.contains(p.post_id) {
        let dq = if p.is_original() { deque_or_empty(v.original, p.author_id) } else { deque_or_empty(v.secondary, p.author_id) };
        crate::store_spec::lemma_insert_pos(dq, p.created_at);
        let pos = crate::store_spec::insert_pos(dq, p.created_at) as int;
        if !records_id(dq, p.post_id) && pos > 0 {
            assert(dq[pos - 1].post_id != p.post_id);
        }
        lemma_place_post(dq, p);
        lemma_place_post(deque_or_empty(v.video, p.author_id), p);
    }
}

} // verus!
