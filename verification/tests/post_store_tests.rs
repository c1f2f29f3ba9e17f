use std::collections::HashSet;
use std::time::Instant;

use thunder::config::{DELETE_EVENT_KEY, MAX_ORIGINAL_POSTS_PER_AUTHOR, MAX_REPLY_POSTS_PER_AUTHOR};
use thunder::post::{LightPost, TweetDeleteEvent};
use thunder::post_store::{batch_ages_fit, budget_spent, PostStore, StoreError};
use thunder::store_spec::PostKind;

fn original(post_id: i64, author_id: i64, created_at: i64) -> LightPost {
    LightPost { post_id, author_id, created_at, ..Default::default() }
}

fn ids(posts: &[LightPost]) -> Vec<i64> {
    posts.iter().map(|p| p.post_id).collect()
}

fn all_posts(store: &PostStore, users: &[i64]) -> Vec<LightPost> {
    store.get_all_posts_by_users(users, &HashSet::new(), Instant::now(), 999)
}

#[test]
fn new_store_is_empty() {
    let store = PostStore::new(100, 0);
    let stats = store.stats();
    assert_eq!(stats.user_count, 0);
    assert_eq!(stats.original_count, 0);
    assert_eq!(stats.secondary_count, 0);
    assert_eq!(stats.video_count, 0);
    assert_eq!(stats.deleted_count, 0);
    assert_eq!(store.retention_seconds(), 100);
}

#[test]
fn default_store_keeps_two_days() {
    let store = PostStore::default();
    assert_eq!(store.retention_seconds(), 172800);
}

#[test]
fn insert_keeps_only_posts_within_retention() {
    let mut store = PostStore::new(100, 0);
    let posts = vec![
        original(1, 7, 950),
        original(2, 7, 800),
        original(3, 7, 1000),
        original(4, 7, 1200),
        original(5, 7, 900),
    ];
    store.insert_posts(posts, 1000);
    assert_eq!(ids(&all_posts(&store, &[7])), vec![1, 5]);
}

#[test]
fn retention_too_large_for_i64_keeps_nothing() {
    let mut store = PostStore::new(u64::MAX, 0);
    store.insert_posts(vec![original(1, 7, 950)], 1000);
    assert_eq!(store.stats().original_count, 0);
}

#[test]
fn posts_are_served_newest_first_per_author_in_request_order() {
    let mut store = PostStore::new(1000, 0);
    store.insert_posts(
        vec![original(1, 7, 500), original(2, 8, 600), original(3, 7, 700), original(4, 8, 400)],
        1000,
    );
    assert_eq!(ids(&all_posts(&store, &[8, 7])), vec![2, 4, 3, 1]);
    assert_eq!(ids(&all_posts(&store, &[7])), vec![3, 1]);
    assert_eq!(ids(&all_posts(&store, &[9])), Vec::<i64>::new());
}

#[test]
fn repeated_post_is_stored_once() {
    let mut store = PostStore::new(1000, 0);
    store.insert_posts(vec![original(1, 7, 500)], 1000);
    store.insert_posts(vec![original(1, 7, 500)], 1000);
    assert_eq!(store.stats().original_count, 1);
    assert_eq!(ids(&all_posts(&store, &[7])), vec![1]);
}

#[test]
fn kinds_go_to_their_maps() {
    let mut store = PostStore::new(1000, 0);
    let video = LightPost { has_video: true, ..original(1, 7, 500) };
    let reply = LightPost { is_reply: true, has_video: true, ..original(2, 7, 510) };
    let retweet = LightPost { is_retweet: true, ..original(3, 7, 520) };
    store.insert_posts(vec![video, reply, retweet], 1000);
    let stats = store.stats();
    assert_eq!(stats.original_count, 1);
    assert_eq!(stats.secondary_count, 2);
    assert_eq!(stats.video_count, 1);
    let videos = store.get_videos_by_users(&[7], &HashSet::new(), Instant::now(), 999);
    assert_eq!(ids(&videos), vec![1]);
}

#[test]
fn deleted_post_is_not_taken_in() {
    let mut store = PostStore::new(1000, 0);
    store.mark_as_deleted(vec![TweetDeleteEvent { post_id: 1, deleted_at: 900 }]);
    store.insert_posts(vec![original(1, 7, 500), original(2, 7, 510)], 1000);
    assert_eq!(ids(&all_posts(&store, &[7])), vec![2]);
    let stats = store.stats();
    assert_eq!(stats.deleted_count, 1);
    // the delete event is recorded in its own deque
    assert_eq!(stats.user_count, 2);
    assert_eq!(ids(&all_posts(&store, &[DELETE_EVENT_KEY])), Vec::<i64>::new());
}

#[test]
fn deleted_post_is_not_served() {
    let mut store = PostStore::new(1000, 0);
    store.insert_posts(vec![original(1, 7, 500), original(2, 7, 510)], 1000);
    store.mark_as_deleted(vec![TweetDeleteEvent { post_id: 2, deleted_at: 900 }]);
    assert_eq!(ids(&all_posts(&store, &[7])), vec![1]);
}

#[test]
fn excluded_posts_and_own_retweets_are_not_served() {
    let mut store = PostStore::new(1000, 0);
    let own_retweet = LightPost { is_retweet: true, source_user_id: Some(999), ..original(3, 7, 530) };
    let other_retweet = LightPost { is_retweet: true, source_user_id: Some(5), ..original(4, 7, 540) };
    store.insert_posts(vec![original(1, 7, 500), original(2, 7, 510), own_retweet, other_retweet], 1000);
    let exclude: HashSet<i64> = [1].into_iter().collect();
    let posts = store.get_all_posts_by_users(&[7], &exclude, Instant::now(), 999);
    assert_eq!(ids(&posts), vec![2, 4]);
}

#[test]
fn replies_only_to_followed_users() {
    let mut store = PostStore::new(1000, 0);
    let to_followed = LightPost {
        is_reply: true,
        in_reply_to_post_id: Some(50),
        in_reply_to_user_id: Some(8),
        ..original(1, 7, 500)
    };
    let to_stranger = LightPost {
        is_reply: true,
        in_reply_to_post_id: Some(51),
        in_reply_to_user_id: Some(9),
        ..original(2, 7, 510)
    };
    let unknown_target = LightPost { is_reply: true, in_reply_to_post_id: Some(52), ..original(3, 7, 520) };
    store.insert_posts(vec![to_followed, to_stranger, unknown_target], 1000);
    assert_eq!(ids(&all_posts(&store, &[7, 8])), vec![1]);
    let following: HashSet<i64> = HashSet::new();
    let secondary = store.get_posts_from_map(
        PostKind::Secondary,
        &[7],
        MAX_REPLY_POSTS_PER_AUTHOR,
        &HashSet::new(),
        &following,
        Instant::now(),
        999,
    );
    assert_eq!(ids(&secondary), vec![3, 2, 1]);
}

#[test]
fn at_most_the_cap_per_author() {
    let mut store = PostStore::new(10000, 0);
    let posts: Vec<LightPost> = (0..30).map(|i| original(i + 1, 7, 100 + i)).collect();
    store.insert_posts(posts, 1000);
    let served = all_posts(&store, &[7]);
    assert_eq!(served.len(), MAX_ORIGINAL_POSTS_PER_AUTHOR);
    assert_eq!(served[0].post_id, 30);
    assert_eq!(served[MAX_ORIGINAL_POSTS_PER_AUTHOR - 1].post_id, 11);
}

#[test]
fn zero_cap_serves_nothing() {
    let mut store = PostStore::new(1000, 0);
    store.insert_posts(vec![original(1, 7, 500)], 1000);
    let posts = store.get_posts_from_map(
        PostKind::Original,
        &[7],
        0,
        &HashSet::new(),
        &HashSet::new(),
        Instant::now(),
        999,
    );
    assert!(posts.is_empty());
}

#[test]
fn trim_drops_expired_posts_and_tombstones() {
    let mut store = PostStore::new(100, 0);
    store.insert_posts(vec![original(1, 7, 950), original(2, 7, 990), original(3, 8, 960)], 1000);
    let reply = LightPost { is_reply: true, ..original(4, 7, 955) };
    store.insert_posts(vec![reply], 1000);
    store.mark_as_deleted(vec![TweetDeleteEvent { post_id: 77, deleted_at: 950 }]);
    assert_eq!(store.stats().deleted_count, 1);
    let trimmed = store.trim_old_posts(1060);
    // post 1 (original) and post 4 (reply) are older than 100 s; the delete event too
    assert_eq!(trimmed, 3);
    assert_eq!(ids(&all_posts(&store, &[7, 8])), vec![2, 3]);
    let stats = store.stats();
    assert_eq!(stats.deleted_count, 0);
    assert_eq!(stats.user_count, 2);
    assert_eq!(stats.secondary_count, 0);
}

#[test]
fn late_expired_post_is_placed_first_and_trimmed() {
    let mut store = PostStore::new(100, 0);
    store.insert_posts(vec![original(2, 7, 990)], 1000);
    store.insert_posts(vec![original(1, 7, 950)], 1000);
    // the older post arrives later but is placed before the newer one
    assert_eq!(ids(&all_posts(&store, &[7])), vec![2, 1]);
    assert_eq!(store.trim_old_posts(1060), 1);
    assert_eq!(ids(&all_posts(&store, &[7])), vec![2]);
}

#[test]
fn late_posts_are_placed_by_creation_time() {
    let mut store = PostStore::new(1000, 0);
    store.insert_posts(vec![original(2, 7, 600)], 1000);
    store.insert_posts(vec![original(1, 7, 500)], 1000);
    store.insert_posts(vec![original(3, 7, 550), original(4, 7, 700)], 1000);
    assert_eq!(ids(&all_posts(&store, &[7])), vec![4, 2, 3, 1]);
}

#[test]
fn repeated_older_post_is_stored_once() {
    let mut store = PostStore::new(1000, 0);
    store.insert_posts(vec![original(1, 7, 500), original(2, 7, 600)], 1000);
    store.insert_posts(vec![original(1, 7, 500)], 1000);
    assert_eq!(store.stats().original_count, 2);
    assert_eq!(ids(&all_posts(&store, &[7])), vec![2, 1]);
}

#[test]
fn post_twice_in_one_batch_is_stored_once() {
    let mut store = PostStore::new(1000, 0);
    let video = LightPost { has_video: true, ..original(1, 7, 500) };
    store.insert_posts(vec![video, video], 1000);
    let stats = store.stats();
    assert_eq!(stats.original_count, 1);
    assert_eq!(stats.video_count, 1);
}

#[test]
fn delete_events_are_placed_by_deletion_time() {
    let mut store = PostStore::new(100, 0);
    store.mark_as_deleted(vec![
        TweetDeleteEvent { post_id: 5, deleted_at: 950 },
        TweetDeleteEvent { post_id: 6, deleted_at: 900 },
    ]);
    // the older event is at the front, so the trim drops its tombstone
    assert_eq!(store.trim_old_posts(1020), 1);
    assert_eq!(store.stats().deleted_count, 1);
    store.insert_posts(vec![original(6, 7, 990), original(5, 7, 995)], 1000);
    assert_eq!(ids(&all_posts(&store, &[7])), vec![6]);
}

#[test]
fn finalize_sorts_trims_and_purges() {
    let mut store = PostStore::new(100, 0);
    store.insert_posts(vec![original(2, 7, 990)], 1000);
    store.insert_posts(vec![original(1, 7, 950)], 1000);
    store.insert_posts(vec![original(3, 7, 995)], 1000);
    store.mark_as_deleted(vec![TweetDeleteEvent { post_id: 3, deleted_at: 1000 }]);
    assert_eq!(store.finalize_init(1060), Ok(()));
    let stats = store.stats();
    // post 1 is trimmed, post 3 purged; the delete event stays in its deque
    assert_eq!(stats.original_count, 2);
    assert_eq!(ids(&all_posts(&store, &[7])), vec![2]);
    assert_eq!(stats.deleted_count, 1);
    // once the delete event expires, a trim drops it and its tombstone
    assert_eq!(store.trim_old_posts(1101), 2);
    let stats = store.stats();
    assert_eq!(stats.deleted_count, 0);
    assert_eq!(stats.original_count, 0);
}

#[test]
fn sort_all_orders_each_deque_oldest_first() {
    let mut store = PostStore::new(1000, 0);
    store.insert_posts(vec![original(2, 7, 600)], 1000);
    store.insert_posts(vec![original(1, 7, 500)], 1000);
    assert_eq!(ids(&all_posts(&store, &[7])), vec![2, 1]);
    store.sort_all_user_posts();
    assert_eq!(ids(&all_posts(&store, &[7])), vec![2, 1]);
}

#[test]
fn clear_empties_the_store() {
    let mut store = PostStore::new(1000, 0);
    store.insert_posts(vec![original(1, 7, 500)], 1000);
    store.mark_as_deleted(vec![TweetDeleteEvent { post_id: 9, deleted_at: 900 }]);
    store.clear();
    let stats = store.stats();
    assert_eq!(stats.user_count, 0);
    assert_eq!(stats.original_count, 0);
    assert_eq!(stats.deleted_count, 0);
    assert!(all_posts(&store, &[7]).is_empty());
}

#[test]
fn timeout_zero_reaches_every_author() {
    let mut store = PostStore::new(1000, 0);
    let posts: Vec<LightPost> = (0..50).map(|i| original(i + 1, i, 500)).collect();
    store.insert_posts(posts, 1000);
    let users: Vec<i64> = (0..50).collect();
    let start = Instant::now() - std::time::Duration::from_secs(3600);
    assert_eq!(store.get_all_posts_by_users(&users, &HashSet::new(), start, 1).len(), 50);
}

#[test]
fn expired_request_reaches_no_author() {
    let mut store = PostStore::new(1000, 1);
    store.insert_posts(vec![original(1, 7, 500)], 1000);
    let start = Instant::now() - std::time::Duration::from_secs(3600);
    assert!(store.get_all_posts_by_users(&[7], &HashSet::new(), start, 1).is_empty());
}

#[test]
fn trim_refuses_posts_from_the_future() {
    let mut store = PostStore::new(100, 0);
    store.insert_posts(vec![original(1, 7, 950)], 1000);
    assert_eq!(store.check_trim(900), Err(StoreError::CreatedAfterNow));
    assert_eq!(store.check_trim(1000), Ok(()));
    // the finalize keeps the sorted store as it is when it cannot trim
    assert_eq!(store.finalize_init(900), Err(StoreError::CreatedAfterNow));
    assert_eq!(store.stats().original_count, 1);
}

#[test]
fn negative_creation_time_cannot_be_trimmed() {
    let mut store = PostStore::new(100, 0);
    store.mark_as_deleted(vec![TweetDeleteEvent { post_id: 1, deleted_at: -5 }]);
    assert_eq!(store.check_trim(1000), Err(StoreError::CreatedAfterNow));
}

#[test]
fn stats_fit_for_small_store() {
    let mut store = PostStore::new(1000, 0);
    store.insert_posts(vec![original(1, 7, 500)], 1000);
    assert!(store.stats_fit());
}

#[test]
fn ages_of_a_batch() {
    assert!(batch_ages_fit(&vec![original(1, 7, 500), original(2, 7, 2000)], 1000));
    assert!(!batch_ages_fit(&vec![original(1, 7, -10)], i64::MAX));
    assert!(batch_ages_fit(&vec![original(1, 7, -10)], 5));
}

#[test]
fn second_trim_at_same_time_pops_nothing() {
    let mut store = PostStore::new(100, 0);
    store.insert_posts(vec![original(1, 7, 950), original(2, 7, 990)], 1000);
    assert_eq!(store.trim_old_posts(1060), 1);
    assert_eq!(store.trim_old_posts(1060), 0);
    assert_eq!(ids(&all_posts(&store, &[7])), vec![2]);
}

#[test]
fn video_deques_follow_the_original_posts() {
    let mut store = PostStore::new(100, 0);
    let old_video = LightPost { has_video: true, ..original(1, 7, 950) };
    let video = LightPost { has_video: true, ..original(2, 7, 990) };
    store.insert_posts(vec![old_video, video, original(3, 7, 995)], 1000);
    assert_eq!(store.stats().video_count, 2);
    store.mark_as_deleted(vec![TweetDeleteEvent { post_id: 2, deleted_at: 1000 }]);
    assert_eq!(store.finalize_init(1060), Ok(()));
    let stats = store.stats();
    // post 1 is trimmed and post 2 purged from both deques
    assert_eq!(stats.video_count, 0);
    assert_eq!(stats.original_count, 2);
    assert!(store.get_videos_by_users(&[7], &HashSet::new(), Instant::now(), 999).is_empty());
}

#[test]
fn budget_spent_only_with_a_timeout() {
    assert!(!budget_spent(0, u128::MAX));
    assert!(!budget_spent(5, 4));
    assert!(budget_spent(5, 5));
    assert!(budget_spent(5, 6));
}

#[test]
fn videos_of_the_delete_event_author_are_kept() {
    let mut store = PostStore::new(1000, 0);
    store.mark_as_deleted(vec![TweetDeleteEvent { post_id: 9, deleted_at: 900 }]);
    let video = LightPost { has_video: true, ..original(1, DELETE_EVENT_KEY, 950) };
    store.insert_posts(vec![video], 1000);
    assert_eq!(store.finalize_init(1000), Ok(()));
    let stats = store.stats();
    assert_eq!(stats.video_count, 1);
    assert_eq!(stats.original_count, 2);
    let videos = store.get_videos_by_users(&[DELETE_EVENT_KEY], &HashSet::new(), Instant::now(), 999);
    assert_eq!(ids(&videos), vec![1]);
}
