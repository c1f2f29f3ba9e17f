//! Properties of the store and of the ranking decisions that hold over all
//! inputs, stated over the values that the operations' contracts use.
use vstd::prelude::*;
use crate::config::DELETE_EVENT_KEY;
use crate::post::{LightPost, TweetDeleteEvent, sorted_oldest_first, sorted_newest_first};
use crate::store_spec::{
    PostStoreView, insert_one, delete_one, deque_or_empty, duplicate_at_place, none_newer,
    lemma_place_post, lemma_place_twice, lemma_insert_pos_unique, ServeRules, user_selection, gather, at_most,
    newest_first, delete_all, purge_ids, purge_view, expired_prefix_len, trim_posts, age_known,
    expired, trim_view, trim_map, expired_tombstones, ids_of_prefix, insert_all, trim_safe, trim_ready, map_trim_safe,
    trimmed_count, sum_over,
};
use crate::service::{most_recent, max_results_for};
use crate::ranking_scorer::{same_author_above, ranked_above, OonWeightSource, oon_weight_source_spec};
use crate::config::{NEW_USER_MIN_FOLLOWING, MAX_POSTS_TO_RETURN, MAX_VIDEOS_TO_RETURN};
use vstd::set_lib::FiniteRange;

verus! {

/// Every element of `at_most(s, n)` is an element of `s`.
proof fn lemma_at_most_in(s: Seq<LightPost>, n: nat)
    ensures
        forall|i: int| 0 <= i < at_most(s, n).len() ==> at_most(s, n)[i] == s[i],
        at_most(s, n).len() <= n,
        at_most(s, n).len() <= s.len(),
{
}

/// What a retrieval takes from one author passes the retrieval rules, and is at
/// most `max_per_user` posts.
pub proof fn lemma_selection_allowed(posts: Seq<LightPost>, scan: nat, max_per_user: nat, rules: ServeRules)
    ensures
        user_selection(posts, scan, max_per_user, rules).len() <= max_per_user,
        forall|i: int| 0 <= i < user_selection(posts, scan, max_per_user, rules).len()
            ==> rules.allows(#[trigger] user_selection(posts, scan, max_per_user, rules)[i]),
{
    let f = |p: LightPost| rules.allows(p);
    let filtered = at_most(newest_first(posts), scan).filter(f);
    lemma_at_most_in(filtered, max_per_user);
    broadcast use vstd::seq_lib::group_filter_ensures;
}

/// A retrieval serves no deleted post, no excluded post and no retweet of the
/// requester's own post: every post it returns passes the retrieval rules.
pub proof fn lemma_served_posts_allowed(m: Map<i64, Seq<LightPost>>, users: Seq<i64>, scan: nat, max_per_user: nat, rules: ServeRules)
    ensures
        forall|i: int| 0 <= i < gather(m, users, scan, max_per_user, rules).len()
            ==> rules.allows(#[trigger] gather(m, users, scan, max_per_user, rules)[i]),
    decreases users.len(),
{
    if users.len() > 0 {
        lemma_served_posts_allowed(m, users.drop_last(), scan, max_per_user, rules);
        let last = users.last();
        let head = gather(m, users.drop_last(), scan, max_per_user, rules);
        if m.contains_key(last) {
            lemma_selection_allowed(m[last], scan, max_per_user, rules);
            let tail = user_selection(m[last], scan, max_per_user, rules);
            assert forall|i: int| 0 <= i < gather(m, users, scan, max_per_user, rules).len()
                implies rules.allows(#[trigger] gather(m, users, scan, max_per_user, rules)[i]) by {
                if i >= head.len() {
                    assert(gather(m, users, scan, max_per_user, rules)[i] == tail[i - head.len()]);
                } else {
                    assert(gather(m, users, scan, max_per_user, rules)[i] == head[i]);
                }
            }
        } else {
            assert(gather(m, users, scan, max_per_user, rules) =~= head);
        }
    }
}

/// Taking in a post twice in a row is taking it in once.
pub proof fn lemma_insert_twice(v: PostStoreView, p: LightPost)
    ensures
        insert_one(insert_one(v, p), p) == insert_one(v, p),
{
    let w = insert_one(v, p);
    if !v.deleted.contains(p.post_id) {
        if p.is_original() {
            let dq = deque_or_empty(v.original, p.author_id);
            if !duplicate_at_place(dq, p) {
                lemma_place_twice(dq, p);
            }
            assert(w.original.insert(p.author_id, deque_or_empty(w.original, p.author_id)) =~= w.original);
        } else {
            let dq = deque_or_empty(v.secondary, p.author_id);
            if !duplicate_at_place(dq, p) {
                lemma_place_twice(dq, p);
            }
            assert(w.secondary.insert(p.author_id, deque_or_empty(w.secondary, p.author_id)) =~= w.secondary);
        }
    }
}

/// Once a post is deleted, taking it in again leaves the store as it is.
pub proof fn lemma_deleted_post_not_taken_in(v: PostStoreView, e: TweetDeleteEvent, p: LightPost)
    requires
        p.post_id == e.post_id,
    ensures
        insert_one(delete_one(v, e), p) == delete_one(v, e),
{
}

/// An original post that is not deleted and not taken in already, and that no
/// post of its author is newer than, ends up at the back of its author's
/// original deque: the first post a retrieval considers for that author.
pub proof fn lemma_inserted_post_is_newest(v: PostStoreView, p: LightPost)
    requires
        !v.deleted.contains(p.post_id),
        p.is_original(),
        !duplicate_at_place(deque_or_empty(v.original, p.author_id), p),
        none_newer(deque_or_empty(v.original, p.author_id), p),
    ensures
        insert_one(v, p).original.contains_key(p.author_id),
        insert_one(v, p).original[p.author_id].len() > 0,
        insert_one(v, p).original[p.author_id].last() == p,
        newest_first(insert_one(v, p).original[p.author_id])[0] == p,
{
    let dq = deque_or_empty(v.original, p.author_id);
    lemma_insert_pos_unique(dq, p.created_at, dq.len() as int);
    lemma_place_post(dq, p);
}

/// A new original post that is not deleted, that no post of its author is newer
/// than, and that the retrieval rules let through is the first post a retrieval
/// of its author returns.
pub proof fn lemma_inserted_post_served_first(v: PostStoreView, p: LightPost, scan: nat, max_per_user: nat, rules: ServeRules)
    requires
        !v.deleted.contains(p.post_id),
        p.is_original(),
        !duplicate_at_place(deque_or_empty(v.original, p.author_id), p),
        none_newer(deque_or_empty(v.original, p.author_id), p),
        scan > 0,
        max_per_user > 0,
        rules.allows(p),
    ensures
        user_selection(insert_one(v, p).original[p.author_id], scan, max_per_user, rules).len() > 0,
        user_selection(insert_one(v, p).original[p.author_id], scan, max_per_user, rules)[0] == p,
{
    lemma_inserted_post_is_newest(v, p);
    let dq = insert_one(v, p).original[p.author_id];
    let f = |q: LightPost| rules.allows(q);
    let scanned = at_most(newest_first(dq), scan);
    assert(scanned[0] == p);
    assert(scanned == seq![p] + scanned.skip(1));
    Seq::filter_distributes_over_add(seq![p], scanned.skip(1), f);
    reveal_with_fuel(Seq::filter, 2);
    assert(seq![p].drop_last() =~= Seq::<LightPost>::empty());
    assert(seq![p].filter(f) =~= seq![p]);
}

/// After a run of delete events, each event's post id is tombstoned, and the
/// tombstones are exactly the earlier ones and the events' post ids.
pub proof fn lemma_delete_all_tombstones(v: PostStoreView, events: Seq<TweetDeleteEvent>)
    ensures
        forall|i: int| 0 <= i < events.len() ==> delete_all(v, events).deleted.contains(#[trigger] events[i].post_id),
        forall|id: i64| #[trigger] delete_all(v, events).deleted.contains(id) <==> (v.deleted.contains(id)
            || exists|i: int| 0 <= i < events.len() && events[i].post_id == id),
    decreases events.len(),
{
    if events.len() > 0 {
        let init = events.drop_last();
        lemma_delete_all_tombstones(v, init);
        assert forall|i: int| 0 <= i < events.len() implies delete_all(v, events).deleted.contains(#[trigger] events[i].post_id) by {
            if i < init.len() {
                assert(init[i] == events[i]);
            }
        }
        assert forall|id: i64| #[trigger] delete_all(v, events).deleted.contains(id) <==> (v.deleted.contains(id)
            || exists|i: int| 0 <= i < events.len() && events[i].post_id == id) by {
            assert(delete_all(v, events).deleted == delete_all(v, init).deleted.insert(events.last().post_id));
            let in_init = delete_all(v, init).deleted.contains(id);
            assert(events[events.len() - 1] == events.last());
            if exists|i: int| 0 <= i < events.len() && events[i].post_id == id {
                let i = choose|i: int| 0 <= i < events.len() && events[i].post_id == id;
                if i < init.len() {
                    assert(init[i] == events[i]);
                }
            }
            if exists|i: int| 0 <= i < init.len() && init[i].post_id == id {
                let i = choose|i: int| 0 <= i < init.len() && init[i].post_id == id;
                assert(init[i] == events[i]);
            }
        }
    }
}

/// After a purge by `ids`, no deque holds a post whose id is in `ids`, but for
/// the delete events, which the purge leaves as they were.
pub proof fn lemma_purge_removes_ids(v: PostStoreView, ids: Set<i64>)
    ensures
        forall|k: i64, i: int| #[trigger] purge_view(v, ids).original.contains_key(k) && k != DELETE_EVENT_KEY
            && 0 <= i < purge_view(v, ids).original[k].len()
            ==> !ids.contains(#[trigger] purge_view(v, ids).original[k][i].post_id),
        forall|k: i64, i: int| #[trigger] purge_view(v, ids).secondary.contains_key(k) && 0 <= i < purge_view(v, ids).secondary[k].len()
            ==> !ids.contains(#[trigger] purge_view(v, ids).secondary[k][i].post_id),
        forall|k: i64, i: int| #[trigger] purge_view(v, ids).video.contains_key(k) && 0 <= i < purge_view(v, ids).video[k].len()
            ==> !ids.contains(#[trigger] purge_view(v, ids).video[k][i].post_id),
        purge_view(v, ids).original.contains_key(DELETE_EVENT_KEY) == v.original.contains_key(DELETE_EVENT_KEY),
        v.original.contains_key(DELETE_EVENT_KEY) ==> purge_view(v, ids).original[DELETE_EVENT_KEY] == v.original[DELETE_EVENT_KEY],
{
    assert forall|s: Seq<LightPost>, i: int| 0 <= i < purge_ids(s, ids).len() implies !ids.contains(#[trigger] purge_ids(s, ids)[i].post_id) by {
        broadcast use vstd::seq_lib::group_filter_ensures;
    }
}

/// The posts that a trim pops from the front of a deque are all expired; the
/// post after them, if any, is not expired or has an unknown age.
pub proof fn lemma_trim_pops_expired(posts: Seq<LightPost>, now: u64, retention_seconds: u64)
    ensures
        expired_prefix_len(posts, now, retention_seconds) <= posts.len(),
        forall|i: int| 0 <= i < expired_prefix_len(posts, now, retention_seconds) ==> age_known(#[trigger] posts[i], now)
            && expired(posts[i], now, retention_seconds),
        expired_prefix_len(posts, now, retention_seconds) < posts.len() ==> !(age_known(posts[expired_prefix_len(posts, now, retention_seconds) as int], now)
            && expired(posts[expired_prefix_len(posts, now, retention_seconds) as int], now, retention_seconds)),
    decreases posts.len(),
{
    if posts.len() > 0 && age_known(posts[0], now) && expired(posts[0], now, retention_seconds) {
        let rest = posts.drop_first();
        lemma_trim_pops_expired(rest, now, retention_seconds);
        assert forall|i: int| 0 <= i < expired_prefix_len(posts, now, retention_seconds) implies age_known(#[trigger] posts[i], now)
            && expired(posts[i], now, retention_seconds) by {
            if i > 0 {
                assert(posts[i] == rest[i - 1]);
            }
        }
        let k = expired_prefix_len(posts, now, retention_seconds) as int;
        if k < posts.len() {
            assert(posts[k] == rest[k - 1]);
        }
    }
}

/// A deque sorted oldest first whose posts have creation times between zero and
/// `now` keeps no expired post after a trim.
pub proof fn lemma_trim_sorted_leaves_fresh(posts: Seq<LightPost>, now: u64, retention_seconds: u64)
    requires
        sorted_oldest_first(posts),
        forall|i: int| 0 <= i < posts.len() ==> 0 <= #[trigger] posts[i].created_at <= now,
    ensures
        forall|i: int| 0 <= i < trim_posts(posts, now, retention_seconds).len()
            ==> !expired(#[trigger] trim_posts(posts, now, retention_seconds)[i], now, retention_seconds),
{
    lemma_trim_pops_expired(posts, now, retention_seconds);
    let k = expired_prefix_len(posts, now, retention_seconds) as int;
    let rest = trim_posts(posts, now, retention_seconds);
    assert forall|i: int| 0 <= i < rest.len() implies !expired(#[trigger] rest[i], now, retention_seconds) by {
        assert(rest[i] == posts[k + i]);
        assert(posts[k].created_at <= posts[k + i].created_at);
        assert(age_known(posts[k], now));
    }
}

/// Asking for at least as many posts as there are returns all of them.
pub proof fn lemma_most_recent_keeps_all(posts: Seq<LightPost>, k: nat, top: Seq<LightPost>)
    requires
        most_recent(posts, k, top),
        k >= posts.len(),
    ensures
        top.to_multiset() == posts.to_multiset(),
{
    broadcast use vstd::seq_lib::group_to_multiset_ensures;
    let rest = choose|rest: Seq<LightPost>| {
        &&& posts.to_multiset() == top.to_multiset().add(rest.to_multiset())
        &&& forall|i: int, j: int| 0 <= i < rest.len() && 0 <= j < top.len() ==> rest[i].created_at <= top[j].created_at
    };
    assert(posts.to_multiset().len() == top.to_multiset().len() + rest.to_multiset().len());
    assert(rest.len() == 0);
    assert(rest.to_multiset() =~= vstd::multiset::Multiset::empty());
    assert(top.to_multiset().add(rest.to_multiset()) =~= top.to_multiset());
}

/// Ranking is a strict order: of two distinct candidates exactly one is ranked
/// above the other, and it is transitive.
pub proof fn lemma_ranked_above_order(rank_keys: Seq<u64>, i: int, j: int, l: int)
    ensures
        i != j ==> (ranked_above(rank_keys, i, j) <==> !ranked_above(rank_keys, j, i)),
        !ranked_above(rank_keys, i, i),
        ranked_above(rank_keys, i, j) && ranked_above(rank_keys, j, l) ==> ranked_above(rank_keys, i, l),
{
}

/// Two distinct candidates of the same author get distinct positions in their
/// author's decay: the one ranked higher has the lower position.
pub proof fn lemma_author_positions_distinct(author_ids: Seq<u64>, rank_keys: Seq<u64>, i: int, j: int)
    requires
        0 <= i < author_ids.len(),
        0 <= j < author_ids.len(),
        author_ids[i] == author_ids[j],
        ranked_above(rank_keys, j, i),
    ensures
        same_author_above(author_ids, rank_keys, j).len() < same_author_above(author_ids, rank_keys, i).len(),
{
    let n = author_ids.len() as int;
    <int as FiniteRange>::range_properties(0, n);
    let all = Set::new(|x: int| 0 <= x < n);
    let above_i = same_author_above(author_ids, rank_keys, i);
    let above_j = same_author_above(author_ids, rank_keys, j);
    assert(above_i.subset_of(all));
    vstd::set_lib::lemma_len_subset(above_i, all);
    assert(above_j.insert(j).subset_of(above_i));
    vstd::set_lib::lemma_len_subset(above_j.insert(j), above_i);
    assert(above_j.subset_of(all));
    vstd::set_lib::lemma_len_subset(above_j, all);
    assert(!above_j.contains(j));
}

/// The highest-ranked candidate of each author is at position zero.
pub proof fn lemma_top_candidate_position_zero(author_ids: Seq<u64>, rank_keys: Seq<u64>, i: int)
    requires
        0 <= i < author_ids.len(),
        forall|j: int| 0 <= j < author_ids.len() && author_ids[j] == author_ids[i] && j != i ==> ranked_above(rank_keys, i, j),
    ensures
        same_author_above(author_ids, rank_keys, i).len() == 0,
{
    assert(same_author_above(author_ids, rank_keys, i) =~= Set::empty());
}

/// Every post that a retrieval takes from one requested author is in the
/// retrieval's result.
pub proof fn lemma_gather_contains_selection(m: Map<i64, Seq<LightPost>>, users: Seq<i64>, scan: nat, max_per_user: nat, rules: ServeRules, j: int, q: LightPost)
    requires
        0 <= j < users.len(),
        m.contains_key(users[j]),
        user_selection(m[users[j]], scan, max_per_user, rules).contains(q),
    ensures
        gather(m, users, scan, max_per_user, rules).contains(q),
    decreases users.len(),
{
    let head = gather(m, users.drop_last(), scan, max_per_user, rules);
    let last = users.last();
    if j < users.len() - 1 {
        assert(users.drop_last()[j] == users[j]);
        lemma_gather_contains_selection(m, users.drop_last(), scan, max_per_user, rules, j, q);
        let i = choose|i: int| 0 <= i < head.len() && head[i] == q;
        assert(gather(m, users, scan, max_per_user, rules)[i] == q);
    } else {
        let sel = user_selection(m[last], scan, max_per_user, rules);
        let i = choose|i: int| 0 <= i < sel.len() && sel[i] == q;
        assert(gather(m, users, scan, max_per_user, rules)[head.len() + i] == q);
    }
}

/// Read after write: a new original post that is not deleted, that no post of
/// its author is newer than, and that the retrieval rules let through, is served
/// by a retrieval of the original posts of any list of authors that includes
/// its author.
pub proof fn lemma_inserted_post_retrieved(v: PostStoreView, p: LightPost, users: Seq<i64>, scan: nat, max_per_user: nat, rules: ServeRules)
    requires
        !v.deleted.contains(p.post_id),
        p.is_original(),
        !duplicate_at_place(deque_or_empty(v.original, p.author_id), p),
        none_newer(deque_or_empty(v.original, p.author_id), p),
        users.contains(p.author_id),
        scan > 0,
        max_per_user > 0,
        rules.allows(p),
    ensures
        gather(insert_one(v, p).original, users, scan, max_per_user, rules).contains(p),
{
    lemma_inserted_post_served_first(v, p, scan, max_per_user, rules);
    let j = choose|j: int| 0 <= j < users.len() && users[j] == p.author_id;
    let sel = user_selection(insert_one(v, p).original[p.author_id], scan, max_per_user, rules);
    assert(sel.contains(p)) by {
        assert(sel[0] == p);
    }
    lemma_gather_contains_selection(insert_one(v, p).original, users, scan, max_per_user, rules, j, p);
}

/// After a trim, a deque has no expired prefix left.
proof fn lemma_trimmed_deque_stays(posts: Seq<LightPost>, now: u64, retention_seconds: u64)
    ensures
        expired_prefix_len(trim_posts(posts, now, retention_seconds), now, retention_seconds) == 0,
{
    lemma_trim_pops_expired(posts, now, retention_seconds);
    let k = expired_prefix_len(posts, now, retention_seconds) as int;
    let rest = trim_posts(posts, now, retention_seconds);
    if rest.len() > 0 {
        assert(rest[0] == posts[k]);
    }
}

/// Trimming twice at the same time is trimming once.
pub proof fn lemma_trim_twice(v: PostStoreView, now: u64)
    ensures
        trim_view(trim_view(v, now), now) == trim_view(v, now),
{
    let r = v.retention_seconds;
    let w = trim_view(v, now);
    assert forall|s: Seq<LightPost>| #[trigger] trim_posts(trim_posts(s, now, r), now, r) == trim_posts(s, now, r) by {
        lemma_trimmed_deque_stays(s, now, r);
        assert(trim_posts(s, now, r).skip(0) =~= trim_posts(s, now, r));
    }
    assert forall|m: Map<i64, Seq<LightPost>>| #[trigger] trim_map(trim_map(m, now, r), now, r) == trim_map(m, now, r) by {
        assert(trim_map(trim_map(m, now, r), now, r) =~= trim_map(m, now, r));
    }
    assert forall|m: Map<i64, Seq<LightPost>>| #[trigger] expired_tombstones(trim_map(m, now, r), now, r) == Set::<i64>::empty() by {
        let t = trim_map(m, now, r);
        if t.contains_key(DELETE_EVENT_KEY) {
            lemma_trimmed_deque_stays(m[DELETE_EVENT_KEY], now, r);
            assert(ids_of_prefix(t[DELETE_EVENT_KEY], 0) =~= Set::<i64>::empty());
        }
    }
    assert(w.deleted.difference(Set::<i64>::empty()).difference(Set::<i64>::empty()).difference(Set::<i64>::empty()) =~= w.deleted);
}

/// A trim leaves a deque that a second trim at the same time can look at
/// safely.
pub(crate) proof fn lemma_trimmed_deque_safe(posts: Seq<LightPost>, now: u64, retention_seconds: u64)
    requires
        trim_safe(posts, now, retention_seconds),
    ensures
        trim_safe(trim_posts(posts, now, retention_seconds), now, retention_seconds),
    decreases posts.len(),
{
    if posts.len() > 0 && age_known(posts[0], now) && expired(posts[0], now, retention_seconds) {
        let rest = posts.drop_first();
        lemma_trimmed_deque_safe(rest, now, retention_seconds);
        let e = expired_prefix_len(rest, now, retention_seconds) as int;
        lemma_trim_pops_expired(rest, now, retention_seconds);
        assert(expired_prefix_len(posts, now, retention_seconds) == 1 + e);
        let a = trim_posts(posts, now, retention_seconds);
        let b = trim_posts(rest, now, retention_seconds);
        assert(a.len() == b.len());
        assert forall|i: int| 0 <= i < a.len() implies a[i] == b[i] by {
            assert(a[i] == posts[1 + e + i]);
            assert(b[i] == rest[e + i]);
        }
        assert(a =~= b);
    } else {
        assert(trim_posts(posts, now, retention_seconds) =~= posts);
    }
}

/// A sum of zeros is zero.
proof fn lemma_sum_over_zero(keys: Set<i64>, f: spec_fn(i64) -> nat)
    requires
        keys.finite(),
        forall|k: i64| #[trigger] keys.contains(k) ==> f(k) == 0,
    ensures
        sum_over(keys, f) == 0,
    decreases keys.len(),
{
    if keys.len() > 0 {
        let k = keys.choose();
        lemma_sum_over_zero(keys.remove(k), f);
    }
}

/// A trim of a map leaves a map that a second trim at the same time can trim
/// safely and pops nothing from.
proof fn lemma_trim_map_again(m: Map<i64, Seq<LightPost>>, now: u64, retention_seconds: u64)
    requires
        m.dom().finite(),
        map_trim_safe(m, now, retention_seconds),
    ensures
        trim_map(m, now, retention_seconds).dom().finite(),
        map_trim_safe(trim_map(m, now, retention_seconds), now, retention_seconds),
        trimmed_count(trim_map(m, now, retention_seconds), now, retention_seconds) == 0,
{
    let t = trim_map(m, now, retention_seconds);
    assert(t.dom().subset_of(m.dom()));
    vstd::set_lib::lemma_set_subset_finite(m.dom(), t.dom());
    assert forall|k: i64| #[trigger] t.contains_key(k) implies trim_safe(t[k], now, retention_seconds) by {
        lemma_trimmed_deque_safe(m[k], now, retention_seconds);
    }
    let f = |k: i64| expired_prefix_len(t[k], now, retention_seconds);
    assert forall|k: i64| #[trigger] t.dom().contains(k) implies f(k) == 0 by {
        lemma_trimmed_deque_stays(m[k], now, retention_seconds);
    }
    lemma_sum_over_zero(t.dom(), f);
}

/// A store trimmed at `now` can be trimmed at `now` again, and that second trim
/// pops nothing and changes nothing.
pub proof fn lemma_second_trim_pops_nothing(v: PostStoreView, now: u64)
    requires
        trim_ready(v, now),
    ensures
        trim_ready(trim_view(v, now), now),
        trimmed_count(trim_view(v, now).original, now, v.retention_seconds) == 0,
        trimmed_count(trim_view(v, now).secondary, now, v.retention_seconds) == 0,
        trimmed_count(trim_view(v, now).video, now, v.retention_seconds) == 0,
        trim_view(trim_view(v, now), now) == trim_view(v, now),
{
    let r = v.retention_seconds;
    lemma_trim_map_again(v.original, now, r);
    lemma_trim_map_again(v.secondary, now, r);
    lemma_trim_map_again(v.video, now, r);
    lemma_trim_twice(v, now);
}

/// A post given twice in a row in one batch is taken in once, and a batch of
/// one post given twice is taken in once.
pub proof fn lemma_insert_batch_twice(v: PostStoreView, p: LightPost)
    ensures
        insert_all(v, seq![p, p]) == insert_all(v, seq![p]),
        insert_all(insert_all(v, seq![p]), seq![p]) == insert_all(v, seq![p]),
{
    reveal_with_fuel(insert_all, 3);
    assert(seq![p, p].drop_last() =~= seq![p]);
    assert(seq![p].drop_last() =~= Seq::<LightPost>::empty());
    lemma_insert_twice(v, p);
}

/// Once a run of delete events is recorded, a retrieval under the store's
/// tombstones serves no post of any of those events, whatever map and authors
/// it reads.
pub proof fn lemma_deleted_posts_never_served(
    v: PostStoreView,
    events: Seq<TweetDeleteEvent>,
    m: Map<i64, Seq<LightPost>>,
    users: Seq<i64>,
    scan: nat,
    max_per_user: nat,
    exclude: Set<i64>,
    following: Set<i64>,
    request_user_id: i64,
    j: int,
)
    requires
        0 <= j < events.len(),
    ensures
        forall|i: int| 0 <= i < gather(m, users, scan, max_per_user,
            ServeRules { exclude, deleted: delete_all(v, events).deleted, following, request_user_id }).len()
            ==> (#[trigger] gather(m, users, scan, max_per_user,
            ServeRules { exclude, deleted: delete_all(v, events).deleted, following, request_user_id })[i]).post_id
            != events[j].post_id,
{
    let rules = ServeRules { exclude, deleted: delete_all(v, events).deleted, following, request_user_id };
    lemma_delete_all_tombstones(v, events);
    assert(rules.deleted.contains(events[j].post_id));
    lemma_served_posts_allowed(m, users, scan, max_per_user, rules);
}

/// `s` with `x` put before the first post that is not newer than it.
spec fn insert_newest(s: Seq<LightPost>, x: LightPost) -> Seq<LightPost>
    decreases s.len(),
{
    if s.len() == 0 {
        seq![x]
    } else if x.created_at >= s[0].created_at {
        seq![x] + s
    } else {
        seq![s[0]] + insert_newest(s.drop_first(), x)
    }
}

/// `s` sorted newest first by insertion.
spec fn sort_newest(s: Seq<LightPost>) -> Seq<LightPost>
    decreases s.len(),
{
    if s.len() == 0 {
        s
    } else {
        insert_newest(sort_newest(s.drop_last()), s.last())
    }
}

proof fn lemma_insert_newest(s: Seq<LightPost>, x: LightPost)
    requires
        sorted_newest_first(s),
    ensures
        sorted_newest_first(insert_newest(s, x)),
        insert_newest(s, x).to_multiset() == s.to_multiset().insert(x),
        insert_newest(s, x).len() == s.len() + 1,
        insert_newest(s, x)[0] == x || (s.len() > 0 && insert_newest(s, x)[0] == s[0]),
    decreases s.len(),
{
    broadcast use vstd::seq_lib::group_to_multiset_ensures;
    if s.len() == 0 {
        assert(seq![x] =~= Seq::<LightPost>::empty().push(x));
    } else if x.created_at >= s[0].created_at {
        vstd::seq_lib::lemma_multiset_commutative(seq![x], s);
        assert(seq![x] =~= Seq::<LightPost>::empty().push(x));
        assert(s.to_multiset().insert(x) =~= seq![x].to_multiset().add(s.to_multiset()));
    } else {
        let rest = s.drop_first();
        lemma_insert_newest(rest, x);
        let r = insert_newest(rest, x);
        vstd::seq_lib::lemma_multiset_commutative(seq![s[0]], r);
        vstd::seq_lib::lemma_multiset_commutative(seq![s[0]], rest);
        assert(s =~= seq![s[0]] + rest);
        assert(seq![s[0]] =~= Seq::<LightPost>::empty().push(s[0]));
        assert(seq![s[0]].to_multiset().add(r.to_multiset()) =~= seq![s[0]].to_multiset().add(rest.to_multiset()).insert(x));
        let full = seq![s[0]] + r;
        assert forall|i: int, j: int| 0 <= i <= j < full.len() implies full[i].created_at >= full[j].created_at by {
            if i == 0 && j > 0 {
                if j == 1 {
                    if r[0] != x {
                        assert(r[0] == rest[0]);
                    }
                } else {
                    assert(full[j] == r[j - 1]);
                    assert(r[0].created_at >= r[j - 1].created_at);
                    if r[0] != x {
                        assert(r[0] == rest[0]);
                    }
                }
            }
        }
    }
}

proof fn lemma_sort_newest(s: Seq<LightPost>)
    ensures
        sorted_newest_first(sort_newest(s)),
        sort_newest(s).to_multiset() == s.to_multiset(),
    decreases s.len(),
{
    broadcast use vstd::seq_lib::group_to_multiset_ensures;
    if s.len() > 0 {
        lemma_sort_newest(s.drop_last());
        lemma_insert_newest(sort_newest(s.drop_last()), s.last());
        assert(s.drop_last().push(s.last()) =~= s);
    }
}

/// The most recent posts are the front of a full newest-first sort of all the
/// posts: keeping the top `k` returns the same posts, in the same order, as
/// sorting everything and taking the first `k`.
pub proof fn lemma_most_recent_is_sorted_prefix(posts: Seq<LightPost>, k: nat, top: Seq<LightPost>)
    requires
        most_recent(posts, k, top),
    ensures
        exists|full: Seq<LightPost>|
            {
                &&& full.to_multiset() == posts.to_multiset()
                &&& sorted_newest_first(full)
                &&& full.take(top.len() as int) == top
            },
{
    broadcast use vstd::seq_lib::group_to_multiset_ensures;
    let rest = choose|rest: Seq<LightPost>| {
        &&& posts.to_multiset() == top.to_multiset().add(rest.to_multiset())
        &&& forall|i: int, j: int| 0 <= i < rest.len() && 0 <= j < top.len() ==> rest[i].created_at <= top[j].created_at
    };
    lemma_sort_newest(rest);
    let sorted_rest = sort_newest(rest);
    let full = top + sorted_rest;
    vstd::seq_lib::lemma_multiset_commutative(top, sorted_rest);
    assert forall|i: int, j: int| 0 <= i <= j < full.len() implies full[i].created_at >= full[j].created_at by {
        if i < top.len() && j >= top.len() {
            let q = sorted_rest[j - top.len()];
            assert(sorted_rest.to_multiset().count(q) > 0);
            assert(rest.to_multiset().count(q) > 0);
            assert(rest.contains(q));
            let r = choose|r: int| 0 <= r < rest.len() && rest[r] == q;
        } else if i >= top.len() {
            assert(full[i] == sorted_rest[i - top.len()]);
            assert(full[j] == sorted_rest[j - top.len()]);
        }
    }
    assert(full.take(top.len() as int) =~= top);
}

/// No two posts of `s` share a creation time.
pub open spec fn distinct_times(s: Seq<LightPost>) -> bool {
    forall|i: int, j: int| 0 <= i < j < s.len() ==> #[trigger] s[i].created_at != #[trigger] s[j].created_at
}

/// Two orderings newest first of the same posts agree on the creation time at
/// every position; where no two posts share a creation time, they are the same
/// ordering.
pub proof fn lemma_newest_first_orders_agree(a: Seq<LightPost>, b: Seq<LightPost>)
    requires
        sorted_newest_first(a),
        sorted_newest_first(b),
        a.to_multiset() == b.to_multiset(),
    ensures
        a.len() == b.len(),
        forall|i: int| 0 <= i < a.len() ==> #[trigger] a[i].created_at == b[i].created_at,
        distinct_times(a) ==> a == b,
    decreases a.len(),
{
    broadcast use vstd::seq_lib::group_to_multiset_ensures;
    assert(a.len() == a.to_multiset().len());
    assert(b.len() == b.to_multiset().len());
    if a.len() > 0 {
        let x = a[0];
        assert(a.contains(x));
        assert(a.to_multiset().count(x) > 0);
        assert(b.to_multiset().count(x) > 0);
        assert(b.contains(x));
        assert(b.contains(b[0]));
        assert(b.to_multiset().count(b[0]) > 0);
        assert(a.to_multiset().count(b[0]) > 0);
        assert(a.contains(b[0]));
        let t = choose|t: int| 0 <= t < a.len() && a[t] == b[0];
        let j = if b[0] == x { 0 } else { choose|j: int| 0 <= j < b.len() && b[j] == x };
        assert(b[j] == x);
        assert(a[0].created_at >= a[t].created_at);
        assert(b[0].created_at >= b[j].created_at);
        let a2 = a.drop_first();
        let b2 = b.remove(j);
        b.remove_ensures(j);
        a.remove_ensures(0);
        assert(a.remove(0) =~= a2);
        assert(a2.to_multiset() == b2.to_multiset());
        assert(sorted_newest_first(a2)) by {
            assert forall|i: int, l: int| 0 <= i <= l < a2.len() implies a2[i].created_at >= a2[l].created_at by {
                assert(a2[i] == a[i + 1] && a2[l] == a[l + 1]);
            }
        }
        assert(sorted_newest_first(b2)) by {
            assert forall|i: int, l: int| 0 <= i <= l < b2.len() implies b2[i].created_at >= b2[l].created_at by {
                let bi = if i < j { i } else { i + 1 };
                let bl = if l < j { l } else { l + 1 };
                assert(b2[i] == b[bi] && b2[l] == b[bl]);
            }
        }
        lemma_newest_first_orders_agree(a2, b2);
        assert forall|i: int| 0 <= i < a.len() implies #[trigger] a[i].created_at == b[i].created_at by {
            if i > 0 {
                assert(a[i] == a2[i - 1]);
                if i <= j {
                    assert(b2[i - 1] == b[i - 1]);
                    assert(b[0].created_at >= b[i - 1].created_at);
                    assert(b[i - 1].created_at >= b[i].created_at);
                    assert(b[i].created_at >= b[j].created_at);
                } else {
                    assert(b2[i - 1] == b[i]);
                }
            }
        }
        if distinct_times(a) {
            if t != 0 {
                assert(a[0].created_at != a[t].created_at);
            }
            assert(distinct_times(a2)) by {
                assert forall|i: int, l: int| 0 <= i < l < a2.len() implies #[trigger] a2[i].created_at != #[trigger] a2[l].created_at by {
                    assert(a2[i] == a[i + 1] && a2[l] == a[l + 1]);
                }
            }
            assert(j == 0);
            assert(b2 =~= b.drop_first());
            assert(a =~= b) by {
                assert forall|i: int| 0 <= i < a.len() implies a[i] == b[i] by {
                    if i > 0 {
                        assert(a[i] == a2[i - 1] && b[i] == b2[i - 1]);
                    }
                }
            }
        }
    }
}

/// Keeping the `k` most recent posts gives, position by position, the creation
/// times that any full newest-first sort of the posts gives in its first
/// positions; where no two posts share a creation time, it gives those very
/// posts in that very order.
pub proof fn lemma_most_recent_matches_any_sort(posts: Seq<LightPost>, k: nat, top: Seq<LightPost>, full: Seq<LightPost>)
    requires
        most_recent(posts, k, top),
        full.to_multiset() == posts.to_multiset(),
        sorted_newest_first(full),
    ensures
        top.len() <= full.len(),
        forall|i: int| 0 <= i < top.len() ==> #[trigger] top[i].created_at == full[i].created_at,
        distinct_times(full) ==> top == full.take(top.len() as int),
{
    lemma_most_recent_is_sorted_prefix(posts, k, top);
    let full0 = choose|full0: Seq<LightPost>| {
        &&& full0.to_multiset() == posts.to_multiset()
        &&& sorted_newest_first(full0)
        &&& full0.take(top.len() as int) == top
    };
    lemma_newest_first_orders_agree(full, full0);
    assert(full.len() == full.to_multiset().len() && posts.len() == posts.to_multiset().len()) by {
        broadcast use vstd::seq_lib::group_to_multiset_ensures;
    }
    assert(top.len() <= full0.len());
    assert forall|i: int| 0 <= i < top.len() implies #[trigger] top[i].created_at == full[i].created_at by {
        assert(top[i] == full0[i]);
    }
}

/// Dropping posts by a filter keeps an ordering newest first.
proof fn lemma_filter_keeps_newest_first(s: Seq<LightPost>, f: spec_fn(LightPost) -> bool)
    requires
        sorted_newest_first(s),
    ensures
        sorted_newest_first(s.filter(f)),
    decreases s.len(),
{
    reveal_with_fuel(Seq::filter, 1);
    if s.len() > 0 {
        let d = s.drop_last();
        assert(sorted_newest_first(d)) by {
            assert forall|i: int, j: int| 0 <= i <= j < d.len() implies d[i].created_at >= d[j].created_at by {
                assert(d[i] == s[i] && d[j] == s[j]);
            }
        }
        lemma_filter_keeps_newest_first(d, f);
        let fd = d.filter(f);
        if f(s.last()) {
            let r = fd.push(s.last());
            assert forall|i: int, j: int| 0 <= i <= j < r.len() implies r[i].created_at >= r[j].created_at by {
                if j == r.len() - 1 && i < j {
                    assert(r[i] == fd[i]);
                    assert(fd.contains(fd[i]));
                    d.lemma_filter_contains_rev(f, fd[i]);
                    let t = choose|t: int| 0 <= t < d.len() && d[t] == fd[i];
                    assert(s[t] == d[t]);
                } else if j < r.len() - 1 {
                    assert(r[i] == fd[i] && r[j] == fd[j]);
                }
            }
        }
    }
}

/// From a deque ordered oldest first, a retrieval takes its author's posts
/// newest first.
pub proof fn lemma_selection_newest_first(posts: Seq<LightPost>, scan: nat, max_per_user: nat, rules: ServeRules)
    requires
        sorted_oldest_first(posts),
    ensures
        sorted_newest_first(user_selection(posts, scan, max_per_user, rules)),
{
    let nf = newest_first(posts);
    assert forall|i: int, j: int| 0 <= i <= j < nf.len() implies nf[i].created_at >= nf[j].created_at by {
        assert(nf[i] == posts[posts.len() - 1 - i] && nf[j] == posts[posts.len() - 1 - j]);
    }
    let a = at_most(nf, scan);
    assert forall|i: int, j: int| 0 <= i <= j < a.len() implies a[i].created_at >= a[j].created_at by {
        assert(a[i] == nf[i] && a[j] == nf[j]);
    }
    let f = |p: LightPost| rules.allows(p);
    lemma_filter_keeps_newest_first(a, f);
    let b = a.filter(f);
    let c = at_most(b, max_per_user);
    assert forall|i: int, j: int| 0 <= i <= j < c.len() implies c[i].created_at >= c[j].created_at by {
        assert(c[i] == b[i] && c[j] == b[j]);
    }
}

/// A retrieval takes at most `max_per_user` posts from each requested author:
/// at most that many times the number of authors in all.
pub proof fn lemma_gather_at_most_per_author(m: Map<i64, Seq<LightPost>>, users: Seq<i64>, scan: nat, max_per_user: nat, rules: ServeRules)
    ensures
        gather(m, users, scan, max_per_user, rules).len() <= users.len() * max_per_user,
    decreases users.len(),
{
    if users.len() > 0 {
        let init = users.drop_last();
        lemma_gather_at_most_per_author(m, init, scan, max_per_user, rules);
        if m.contains_key(users.last()) {
            lemma_selection_allowed(m[users.last()], scan, max_per_user, rules);
        }
        let n = users.len() as int;
        let k = max_per_user as int;
        assert((n - 1) * k + k == n * k) by (nonlinear_arith);
    }
}

/// Whatever map and authors a retrieval reads, no post it returns has an id in
/// the request's exclude set or among the tombstones, and none is a retweet of
/// the requester's own post.
pub proof fn lemma_served_posts_respect_request(m: Map<i64, Seq<LightPost>>, users: Seq<i64>, scan: nat, max_per_user: nat, rules: ServeRules)
    ensures
        forall|i: int| 0 <= i < gather(m, users, scan, max_per_user, rules).len() ==> {
            let p = #[trigger] gather(m, users, scan, max_per_user, rules)[i];
            &&& !rules.exclude.contains(p.post_id)
            &&& !rules.deleted.contains(p.post_id)
            &&& !(p.is_retweet && p.source_user_id == Some(rules.request_user_id))
        },
{
    lemma_served_posts_allowed(m, users, scan, max_per_user, rules);
}

/// A request that asks for a positive number of results gets exactly that
/// number, for posts and for videos alike; one that asks for zero gets the
/// default of its kind.
pub proof fn lemma_requested_results_honoured(max_results: u32, is_video_request: bool)
    ensures
        max_results > 0 ==> max_results_for(max_results, is_video_request) == max_results,
        max_results == 0 && is_video_request ==> max_results_for(max_results, is_video_request) == MAX_VIDEOS_TO_RETURN,
        max_results == 0 && !is_video_request ==> max_results_for(max_results, is_video_request) == MAX_POSTS_TO_RETURN,
{
}

/// The out-of-network factor: topics decide first; without topics, an account
/// known to be younger than the threshold that follows at least
/// `NEW_USER_MIN_FOLLOWING` users is a new user, whatever larger number it
/// follows; an account of unknown age, one at or over the threshold, or one
/// following fewer users is not.
pub proof fn lemma_oon_weight_rule(has_topic_ids: bool, account_age_secs: Option<u64>, threshold: u64, followed_user_count: usize)
    ensures
        has_topic_ids ==> oon_weight_source_spec(has_topic_ids, account_age_secs, threshold, followed_user_count)
            == OonWeightSource::Topic,
        !has_topic_ids && account_age_secs is Some && account_age_secs->0 < threshold
            && followed_user_count >= NEW_USER_MIN_FOLLOWING
            ==> oon_weight_source_spec(has_topic_ids, account_age_secs, threshold, followed_user_count)
            == OonWeightSource::NewUser,
        !has_topic_ids && (account_age_secs is None || account_age_secs->0 >= threshold
            || followed_user_count < NEW_USER_MIN_FOLLOWING)
            ==> oon_weight_source_spec(has_topic_ids, account_age_secs, threshold, followed_user_count)
            == OonWeightSource::Standard,
{
}

/// Following more users never takes away the new-user factor.
pub proof fn lemma_oon_new_user_monotone(has_topic_ids: bool, account_age_secs: Option<u64>, threshold: u64, fewer: usize, more: usize)
    requires
        fewer <= more,
        oon_weight_source_spec(has_topic_ids, account_age_secs, threshold, fewer) == OonWeightSource::NewUser,
    ensures
        oon_weight_source_spec(has_topic_ids, account_age_secs, threshold, more) == OonWeightSource::NewUser,
{
}

/// `q` is one of the `scan` newest posts of `posts`.
pub open spec fn among_newest(posts: Seq<LightPost>, scan: nat, q: LightPost) -> bool {
    exists|j: int| posts.len() - scan <= j < posts.len() && #[trigger] posts[j] == q
}

/// `q` is one of the `scan` newest posts of the deque, in `m`, of an author of `users`.
pub open spec fn from_requested_author(m: Map<i64, Seq<LightPost>>, users: Seq<i64>, scan: nat, q: LightPost) -> bool {
    exists|u: i64| #[trigger] users.contains(u) && m.contains_key(u) && among_newest(m[u], scan, q)
}

/// What a retrieval takes from one deque is among its `scan` newest posts.
pub proof fn lemma_selection_from_newest(posts: Seq<LightPost>, scan: nat, max_per_user: nat, rules: ServeRules)
    ensures
        forall|i: int| 0 <= i < user_selection(posts, scan, max_per_user, rules).len()
            ==> among_newest(posts, scan, #[trigger] user_selection(posts, scan, max_per_user, rules)[i]),
{
    broadcast use vstd::seq_lib::group_filter_ensures;
    let nf = newest_first(posts);
    let a = at_most(nf, scan);
    let f = |p: LightPost| rules.allows(p);
    let b = a.filter(f);
    let c = at_most(b, max_per_user);
    assert forall|i: int| 0 <= i < c.len() implies among_newest(posts, scan, #[trigger] c[i]) by {
        assert(c[i] == b[i]);
        assert(b.contains(b[i]));
        a.lemma_filter_contains_rev(f, b[i]);
        let t = choose|t: int| 0 <= t < a.len() && a[t] == b[i];
        assert(a[t] == nf[t]);
        let j = posts.len() - 1 - t;
        assert(posts[j] == c[i]);
    }
}

/// Every post a retrieval returns stands among the `scan` newest posts of the
/// deque, in `m`, of one of the requested authors.
pub proof fn lemma_gather_from_requested_authors(m: Map<i64, Seq<LightPost>>, users: Seq<i64>, scan: nat, max_per_user: nat, rules: ServeRules)
    ensures
        forall|i: int| 0 <= i < gather(m, users, scan, max_per_user, rules).len()
            ==> from_requested_author(m, users, scan, #[trigger] gather(m, users, scan, max_per_user, rules)[i]),
    decreases users.len(),
{
    if users.len() > 0 {
        let init = users.drop_last();
        let last = users.last();
        lemma_gather_from_requested_authors(m, init, scan, max_per_user, rules);
        let head = gather(m, init, scan, max_per_user, rules);
        let g = gather(m, users, scan, max_per_user, rules);
        assert forall|i: int| 0 <= i < g.len() implies from_requested_author(m, users, scan, #[trigger] g[i]) by {
            if i < head.len() {
                assert(g[i] == head[i]);
                assert(from_requested_author(m, init, scan, head[i]));
                let u = choose|u: i64| #[trigger] init.contains(u) && m.contains_key(u) && among_newest(m[u], scan, head[i]);
                let t = choose|t: int| 0 <= t < init.len() && init[t] == u;
                assert(users[t] == u);
                assert(users.contains(u));
            } else {
                assert(m.contains_key(last));
                let sel = user_selection(m[last], scan, max_per_user, rules);
                assert(g[i] == sel[i - head.len()]);
                lemma_selection_from_newest(m[last], scan, max_per_user, rules);
                assert(among_newest(m[last], scan, sel[i - head.len()]));
                assert(users[users.len() - 1] == last);
                assert(users.contains(last));
            }
        }
    }
}

} // verus!
