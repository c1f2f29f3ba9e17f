//! Serving an in-network request: which posts to fetch and which of them to return.
use std::collections::HashSet;
use std::time::Instant;
use vstd::prelude::*;
use crate::config::{MAX_INPUT_LIST_SIZE, MAX_POSTS_TO_RETURN, MAX_VIDEOS_TO_RETURN};
use crate::post::{LightPost, sorted_newest_first};
use crate::post_store::PostStore;
use crate::sorting::{sort_newest_first, select_nth_newest};
use crate::store_spec::{videos_served, all_posts_served};

verus! {

broadcast use {vstd::seq_lib::group_to_multiset_ensures, vstd::std_specs::hash::group_hash_axioms};

/// `top` holds `min(k, posts.len())` of `posts`, newest first, and no post of
/// `posts` left out of `top` is newer than a post in `top`.
pub open spec fn most_recent(posts: Seq<LightPost>, k: nat, top: Seq<LightPost>) -> bool {
    &&& top.len() == if k <= posts.len() { k } else { posts.len() }
    &&& sorted_newest_first(top)
    &&& exists|rest: Seq<LightPost>|
        {
            &&& posts.to_multiset() == top.to_multiset().add(rest.to_multiset())
            &&& forall|i: int, j: int| 0 <= i < rest.len() && 0 <= j < top.len() ==> rest[i].created_at <= top[j].created_at
        }
}

/// The `max_results` most recent posts, newest first. Among posts of equal
/// creation time, which ones are kept and in what order is left open.
pub fn score_recent(posts: Vec<LightPost>, max_results: usize) -> (top: Vec<LightPost>)
    ensures
        most_recent(posts@, max_results as nat, top@),
{
    let mut posts = posts;
    let ghost input = posts@;
    let n = posts.len();
    if max_results == 0 {
        let top: Vec<LightPost> = Vec::new();
        proof {
            assert(input.to_multiset() == top@.to_multiset().add(input.to_multiset()));
        }
        return top;
    }
    if max_results >= n {
        sort_newest_first(&mut posts);
        proof {
            assert(posts@.to_multiset().len() == input.to_multiset().len());
            let rest = Seq::<LightPost>::empty();
            assert(input.to_multiset() =~= posts@.to_multiset().add(rest.to_multiset()));
        }
        return posts;
    }
    select_nth_newest(&mut posts, max_results);
    assert(posts@.to_multiset().len() == input.to_multiset().len());
    let ghost arranged = posts@;
    let ghost pivot = arranged[max_results as int];
    posts.truncate(max_results);
    assert(posts@ == arranged.take(max_results as int));
    let ghost taken = posts@;
    sort_newest_first(&mut posts);
    proof {
        assert(posts@.to_multiset().len() == taken.to_multiset().len());
        let rest = arranged.skip(max_results as int);
        assert(arranged =~= taken + rest);
        vstd::seq_lib::lemma_multiset_commutative(taken, rest);
        assert forall|j: int| 0 <= j < posts@.len() implies posts@[j].created_at >= pivot.created_at by {
            assert(posts@.to_multiset().count(posts@[j]) > 0);
            assert(taken.contains(posts@[j]));
            let i = choose|i: int| 0 <= i < taken.len() && taken[i] == posts@[j];
            assert(arranged[i] == taken[i]);
        }
        assert forall|i: int, j: int| 0 <= i < rest.len() && 0 <= j < posts@.len() implies rest[i].created_at <= posts@[j].created_at by {
            assert(rest[i] == arranged[max_results + i]);
            if i > 0 {
                assert(arranged[max_results + i].created_at <= pivot.created_at);
            }
        }
    }
    posts
}

/// A request for the recent posts of the accounts a user follows.
#[derive(Clone, Debug, PartialEq, Eq, Default)]
pub struct GetInNetworkPostsRequest {
    pub user_id: u64,
    pub following_user_ids: Vec<u64>,
    pub exclude_tweet_ids: Vec<u64>,
    /// Zero asks for the default for the kind of request.
    pub max_results: u32,
    pub is_video_request: bool,
    pub debug: bool,
}

/// What a request asks of the store, once its lists are bounded.
#[derive(Clone, Debug, PartialEq, Eq)]
pub struct InNetworkQuery {
    pub request_user_id: i64,
    pub following_user_ids: Vec<i64>,
    pub exclude_tweet_ids: Vec<i64>,
    pub max_results: usize,
    pub is_video_request: bool,
}

/// `x` read as an `i64`, as a cast of the `u64` gives it.
pub open spec fn wrapped_i64(x: u64) -> int {
    if x <= i64::MAX { x as int } else { x - 0x1_0000_0000_0000_0000 }
}

/// `x` read as a `u64`, as a cast of the `i64` gives it.
pub open spec fn wrapped_u64(x: i64) -> int {
    if x >= 0 { x as int } else { x + 0x1_0000_0000_0000_0000 }
}

/// The number of results a request gets: what it asks for, or the default for
/// videos or for posts when it asks for zero.
pub open spec fn max_results_for(max_results: u32, is_video_request: bool) -> nat {
    if max_results > 0 {
        max_results as nat
    } else if is_video_request {
        MAX_VIDEOS_TO_RETURN as nat
    } else {
        MAX_POSTS_TO_RETURN as nat
    }
}

/// The number of results a request gets.
pub fn resolve_max_results(max_results: u32, is_video_request: bool) -> (n: usize)
    ensures
        n == max_results_for(max_results, is_video_request),
        max_results > 0 ==> n == max_results,
{
    if max_results > 0 {
        max_results as usize
    } else if is_video_request {
        MAX_VIDEOS_TO_RETURN
    } else {
        MAX_POSTS_TO_RETURN
    }
}

/// The following list is fetched from the social graph only for a debug request
/// that brings none.
pub fn needs_following_fetch(request: &GetInNetworkPostsRequest) -> (fetch: bool)
    ensures
        fetch == (request.following_user_ids@.len() == 0 && request.debug),
{
    request.following_user_ids.len() == 0 && request.debug
}

/// `x` as an `i64`, wrapping as a cast does.
fn to_i64(x: u64) -> (y: i64)
    ensures
        y == wrapped_i64(x),
{
    let y = x as i64;
    assert(x <= 0x7fff_ffff_ffff_ffff ==> y == x) by (bit_vector)
        requires y == x as i64;
    assert(x > 0x7fff_ffff_ffff_ffff ==> y == x - 0x1_0000_0000_0000_0000) by (bit_vector)
        requires y == x as i64;
    y
}

/// `x` as a `u64`, wrapping as a cast does.
fn to_u64(x: i64) -> (y: u64)
    ensures
        y == wrapped_u64(x),
{
    let y = x as u64;
    assert(x >= 0 ==> y == x) by (bit_vector)
        requires y == x as u64;
    assert(x < 0 ==> y == x + 0x1_0000_0000_0000_0000) by (bit_vector)
        requires y == x as u64;
    y
}

/// The first `MAX_INPUT_LIST_SIZE` ids of `ids`, each as an `i64`.
pub fn bounded_ids(ids: &Vec<u64>) -> (bounded: Vec<i64>)
    ensures
        bounded@.len() == if ids@.len() <= MAX_INPUT_LIST_SIZE { ids@.len() } else { MAX_INPUT_LIST_SIZE as nat },
        forall|i: int| 0 <= i < bounded@.len() ==> #[trigger] bounded@[i] == wrapped_i64(ids@[i]),
{
    let n = if ids.len() <= MAX_INPUT_LIST_SIZE { ids.len() } else { MAX_INPUT_LIST_SIZE };
    let mut bounded: Vec<i64> = Vec::new();
    for i in 0..n
        invariant
            n <= ids@.len(),
            bounded@.len() == i,
            forall|j: int| 0 <= j < i ==> #[trigger] bounded@[j] == wrapped_i64(ids@[j]),
    {
        bounded.push(to_i64(ids[i]));
    }
    bounded
}

/// The following list fetched from the social graph, as `u64` ids.
pub fn fetched_following_ids(fetched: Vec<i64>) -> (ids: Vec<u64>)
    ensures
        ids@.len() == fetched@.len(),
        forall|i: int| 0 <= i < ids@.len() ==> #[trigger] ids@[i] == wrapped_u64(fetched@[i]),
{
    let mut ids: Vec<u64> = Vec::new();
    let n = fetched.len();
    for i in 0..n
        invariant
            n == fetched@.len(),
            ids@.len() == i,
            forall|j: int| 0 <= j < i ==> #[trigger] ids@[j] == wrapped_u64(fetched@[j]),
    {
        ids.push(to_u64(fetched[i]));
    }
    ids
}

/// The store query of a request: the first `MAX_INPUT_LIST_SIZE` followed users
/// and excluded posts, as `i64` ids, and the number of results to return.
pub fn build_query(request: &GetInNetworkPostsRequest, following_user_ids: &Vec<u64>) -> (query: InNetworkQuery)
    ensures
        query.request_user_id == wrapped_i64(request.user_id),
        query.following_user_ids@.len() == if following_user_ids@.len() <= MAX_INPUT_LIST_SIZE {
            following_user_ids@.len()
        } else {
            MAX_INPUT_LIST_SIZE as nat
        },
        forall|i: int| 0 <= i < query.following_user_ids@.len() ==> #[trigger] query.following_user_ids@[i] == wrapped_i64(following_user_ids@[i]),
        query.exclude_tweet_ids@.len() == if request.exclude_tweet_ids@.len() <= MAX_INPUT_LIST_SIZE {
            request.exclude_tweet_ids@.len()
        } else {
            MAX_INPUT_LIST_SIZE as nat
        },
        forall|i: int| 0 <= i < query.exclude_tweet_ids@.len() ==> #[trigger] query.exclude_tweet_ids@[i] == wrapped_i64(request.exclude_tweet_ids@[i]),
        query.max_results == max_results_for(request.max_results, request.is_video_request),
        query.is_video_request == request.is_video_request,
{
    InNetworkQuery {
        request_user_id: to_i64(request.user_id),
        following_user_ids: bounded_ids(following_user_ids),
        exclude_tweet_ids: bounded_ids(&request.exclude_tweet_ids),
        max_results: resolve_max_results(request.max_results, request.is_video_request),
        is_video_request: request.is_video_request,
    }
}

/// The candidate posts of a query: the video posts or all posts of the followed
/// users, as the store serves them.
pub fn fetch_query_posts(store: &PostStore, query: &InNetworkQuery, start_time: Instant) -> (posts: Vec<LightPost>)
    ensures
        if query.is_video_request {
            videos_served(store@, query.following_user_ids@, query.exclude_tweet_ids@.to_set(), query.request_user_id, posts@)
        } else {
            all_posts_served(store@, query.following_user_ids@, query.exclude_tweet_ids@.to_set(), query.request_user_id, posts@)
        },
{
    let mut exclude: HashSet<i64> = HashSet::new();
    let n = query.exclude_tweet_ids.len();
    for i in 0..n
        invariant
            n == query.exclude_tweet_ids@.len(),
            exclude@ == query.exclude_tweet_ids@.take(i as int).to_set(),
    {
        proof {
            assert(query.exclude_tweet_ids@.take(i + 1) =~= query.exclude_tweet_ids@.take(i as int).push(query.exclude_tweet_ids@[i as int]));
            query.exclude_tweet_ids@.take(i as int).lemma_push_to_set_commute(query.exclude_tweet_ids@[i as int]);
        }
        exclude.insert(query.exclude_tweet_ids[i]);
    }
    proof {
        assert(query.exclude_tweet_ids@.take(n as int) =~= query.exclude_tweet_ids@);
    }
    if query.is_video_request {
        store.get_videos_by_users(&query.following_user_ids, &exclude, start_time, query.request_user_id)
    } else {
        store.get_all_posts_by_users(&query.following_user_ids, &exclude, start_time, query.request_user_id)
    }
}

/// Answers a query from the store: the candidate posts of `fetch_query_posts`,
/// then the `max_results` most recent of those.
pub fn serve_query(store: &PostStore, query: &InNetworkQuery, start_time: Instant) -> (posts: Vec<LightPost>)
    ensures
        exists|fetched: Seq<LightPost>|
            {
                &&& if query.is_video_request {
                    videos_served(store@, query.following_user_ids@, query.exclude_tweet_ids@.to_set(), query.request_user_id, fetched)
                } else {
                    all_posts_served(store@, query.following_user_ids@, query.exclude_tweet_ids@.to_set(), query.request_user_id, fetched)
                }
                &&& most_recent(fetched, query.max_results as nat, posts@)
            },
{
    let fetched = fetch_query_posts(store, query, start_time);
    let ghost fetched_view = fetched@;
    let top = score_recent(fetched, query.max_results);
    assert(most_recent(fetched_view, query.max_results as nat, top@));
    top
}

/// Figures of a list of served posts.
#[derive(Clone, Copy, Debug, PartialEq, Eq)]
pub struct PostSummary {
    pub post_count: usize,
    /// Creation time of the newest post.
    pub newest_created_at: i64,
    /// Creation time of the oldest post.
    pub oldest_created_at: i64,
    pub reply_count: usize,
    /// Number of distinct authors.
    pub unique_author_count: usize,
}

/// The authors of `posts`.
pub open spec fn authors_of(posts: Seq<LightPost>) -> Set<i64> {
    posts.map_values(|p: LightPost| p.author_id).to_set()
}

/// The figures of `posts`, or `None` where there are no posts.
pub fn summarize_posts(posts: &[LightPost]) -> (summary: Option<PostSummary>)
    ensures
        summary is None <==> posts@.len() == 0,
        summary matches Some(s) ==> {
            &&& s.post_count == posts@.len()
            &&& (exists|i: int| 0 <= i < posts@.len() && posts@[i].created_at == s.newest_created_at)
            &&& (forall|i: int| 0 <= i < posts@.len() ==> posts@[i].created_at <= s.newest_created_at)
            &&& (exists|i: int| 0 <= i < posts@.len() && posts@[i].created_at == s.oldest_created_at)
            &&& (forall|i: int| 0 <= i < posts@.len() ==> posts@[i].created_at >= s.oldest_created_at)
            &&& s.reply_count == posts@.filter(|p: LightPost| p.is_reply).len()
            &&& s.unique_author_count == authors_of(posts@).len()
        },
{
    let n = posts.len();
    if n == 0 {
        return None;
    }
    let mut newest = posts[0].created_at;
    let mut oldest = posts[0].created_at;
    let mut reply_count: usize = 0;
    let mut authors: HashSet<i64> = HashSet::new();
    proof {
        assert(posts@.take(0).map_values(|p: LightPost| p.author_id) =~= Seq::<i64>::empty());
        reveal_with_fuel(Seq::filter, 1);
    }
    for i in 0..n
        invariant
            n == posts@.len(),
            n > 0,
            exists|j: int| 0 <= j < n && posts@[j].created_at == newest,
            exists|j: int| 0 <= j < n && posts@[j].created_at == oldest,
            forall|j: int| 0 <= j < i ==> posts@[j].created_at <= newest,
            forall|j: int| 0 <= j < i ==> posts@[j].created_at >= oldest,
            reply_count == posts@.take(i as int).filter(|p: LightPost| p.is_reply).len(),
            reply_count <= i,
            authors@ == authors_of(posts@.take(i as int)),
    {
        let p = posts[i];
        if p.created_at > newest {
            newest = p.created_at;
        }
        if p.created_at < oldest {
            oldest = p.created_at;
        }
        let ghost prefix = posts@.take(i as int);
        proof {
            reveal_with_fuel(Seq::filter, 1);
            assert(posts@.take(i + 1) =~= prefix.push(p));
            assert(posts@.take(i + 1).drop_last() =~= prefix);
            assert(prefix.push(p).map_values(|p: LightPost| p.author_id) =~= prefix.map_values(|p: LightPost| p.author_id).push(p.author_id));
            prefix.map_values(|p: LightPost| p.author_id).lemma_push_to_set_commute(p.author_id);
            assert(prefix.filter(|p: LightPost| p.is_reply).len() <= prefix.len()) by {
                broadcast use vstd::seq_lib::group_filter_ensures;
            }
        }
        if p.is_reply {
            reply_count = reply_count + 1;
        }
        authors.insert(p.author_id);
    }
    proof {
        assert(posts@.take(n as int) =~= posts@);
    }
    Some(PostSummary {
        post_count: n,
        newest_created_at: newest,
        oldest_created_at: oldest,
        reply_count,
        unique_author_count: authors.len(),
    })
}

} // verus!
