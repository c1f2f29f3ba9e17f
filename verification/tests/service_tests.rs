use std::time::Instant;

use thunder::config::{MAX_INPUT_LIST_SIZE, MAX_POSTS_TO_RETURN, MAX_VIDEOS_TO_RETURN};
use thunder::post::LightPost;
use thunder::post_store::PostStore;
use thunder::service::{
    build_query, fetched_following_ids, needs_following_fetch, resolve_max_results, score_recent,
    serve_query, summarize_posts, GetInNetworkPostsRequest,
};

fn post(post_id: i64, author_id: i64, created_at: i64) -> LightPost {
    LightPost { post_id, author_id, created_at, ..Default::default() }
}

fn times(posts: &[LightPost]) -> Vec<i64> {
    posts.iter().map(|p| p.created_at).collect()
}

#[test]
fn score_recent_zero_returns_nothing() {
    assert!(score_recent(vec![post(1, 1, 10)], 0).is_empty());
}

#[test]
fn score_recent_all_sorted_newest_first() {
    let posts = vec![post(1, 1, 10), post(2, 1, 30), post(3, 1, 20)];
    assert_eq!(times(&score_recent(posts, 5)), vec![30, 20, 10]);
}

#[test]
fn score_recent_keeps_the_most_recent() {
    let posts = vec![post(1, 1, 10), post(2, 1, 50), post(3, 1, 20), post(4, 1, 40), post(5, 1, 30)];
    assert_eq!(times(&score_recent(posts, 2)), vec![50, 40]);
}

#[test]
fn score_recent_exact_count() {
    let posts = vec![post(1, 1, 10), post(2, 1, 50)];
    assert_eq!(times(&score_recent(posts, 2)), vec![50, 10]);
}

#[test]
fn max_results_defaults() {
    assert_eq!(resolve_max_results(7, true), 7);
    assert_eq!(resolve_max_results(0, true), MAX_VIDEOS_TO_RETURN);
    assert_eq!(resolve_max_results(0, false), MAX_POSTS_TO_RETURN);
}

#[test]
fn following_fetch_only_for_empty_debug_request() {
    let mut request = GetInNetworkPostsRequest { debug: true, ..Default::default() };
    assert!(needs_following_fetch(&request));
    request.debug = false;
    assert!(!needs_following_fetch(&request));
    request.debug = true;
    request.following_user_ids = vec![1];
    assert!(!needs_following_fetch(&request));
}

#[test]
fn query_bounds_lists_and_wraps_ids() {
    let request = GetInNetworkPostsRequest {
        user_id: u64::MAX,
        following_user_ids: vec![],
        exclude_tweet_ids: (0..1500u64).collect(),
        max_results: 0,
        is_video_request: false,
        debug: false,
    };
    let following: Vec<u64> = (0..1200u64).map(|i| i + (1u64 << 63)).collect();
    let query = build_query(&request, &following);
    assert_eq!(query.request_user_id, -1);
    assert_eq!(query.following_user_ids.len(), MAX_INPUT_LIST_SIZE);
    assert_eq!(query.following_user_ids[0], i64::MIN);
    assert_eq!(query.exclude_tweet_ids.len(), MAX_INPUT_LIST_SIZE);
    assert_eq!(query.exclude_tweet_ids[999], 999);
    assert_eq!(query.max_results, MAX_POSTS_TO_RETURN);
}

#[test]
fn fetched_ids_wrap_to_u64() {
    assert_eq!(fetched_following_ids(vec![5, -1]), vec![5, u64::MAX]);
}

#[test]
fn summary_of_posts() {
    assert!(summarize_posts(&[]).is_none());
    let reply = LightPost { is_reply: true, ..post(2, 8, 30) };
    let posts = vec![post(1, 7, 10), reply, post(3, 7, 20)];
    let summary = summarize_posts(&posts).unwrap();
    assert_eq!(summary.post_count, 3);
    assert_eq!(summary.newest_created_at, 30);
    assert_eq!(summary.oldest_created_at, 10);
    assert_eq!(summary.reply_count, 1);
    assert_eq!(summary.unique_author_count, 2);
}

#[test]
fn serve_query_returns_most_recent_in_network_posts() {
    let mut store = PostStore::new(1000, 0);
    store.insert_posts(
        vec![post(1, 7, 500), post(2, 8, 600), post(3, 7, 700), post(4, 9, 800), post(5, 8, 650)],
        1000,
    );
    let request = GetInNetworkPostsRequest {
        user_id: 42,
        following_user_ids: vec![7, 8],
        exclude_tweet_ids: vec![5],
        max_results: 2,
        is_video_request: false,
        debug: false,
    };
    let query = build_query(&request, &request.following_user_ids);
    let posts = serve_query(&store, &query, Instant::now());
    let ids: Vec<i64> = posts.iter().map(|p| p.post_id).collect();
    assert_eq!(ids, vec![3, 2]);
}

#[test]
fn serve_query_for_videos() {
    let mut store = PostStore::new(1000, 0);
    let video = LightPost { has_video: true, ..post(1, 7, 500) };
    store.insert_posts(vec![video, post(2, 7, 600)], 1000);
    let request = GetInNetworkPostsRequest {
        user_id: 42,
        following_user_ids: vec![7],
        is_video_request: true,
        ..Default::default()
    };
    let query = build_query(&request, &request.following_user_ids);
    let posts = serve_query(&store, &query, Instant::now());
    assert_eq!(posts.len(), 1);
    assert_eq!(posts[0].post_id, 1);
}

#[test]
fn fetch_query_posts_returns_originals_then_replies() {
    let mut store = PostStore::new(1000, 0);
    let reply = LightPost { is_reply: true, ..post(2, 7, 900) };
    store.insert_posts(vec![post(1, 7, 500), reply], 1000);
    let request = GetInNetworkPostsRequest { user_id: 42, following_user_ids: vec![7], ..Default::default() };
    let query = build_query(&request, &request.following_user_ids);
    let posts = thunder::service::fetch_query_posts(&store, &query, Instant::now());
    let ids: Vec<i64> = posts.iter().map(|p| p.post_id).collect();
    assert_eq!(ids, vec![1, 2]);
}

#[test]
fn score_recent_matches_a_full_sort() {
    let posts = vec![post(1, 1, 40), post(2, 2, 10), post(3, 3, 70), post(4, 4, 20), post(5, 5, 60), post(6, 6, 30)];
    let mut full = posts.clone();
    full.sort_by_key(|p| std::cmp::Reverse(p.created_at));
    full.truncate(3);
    assert_eq!(score_recent(posts, 3), full);
}

#[test]
fn score_recent_ties_keep_creation_times() {
    let posts = vec![post(1, 1, 40), post(2, 2, 40), post(3, 3, 70), post(4, 4, 40)];
    assert_eq!(times(&score_recent(posts, 2)), vec![70, 40]);
}
