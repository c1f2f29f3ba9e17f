use vstd::prelude::*;

verus! {

/// Author key of the deque that records delete events, so that their tombstones
/// age out with the retention window.
pub const DELETE_EVENT_KEY: i64 = -1;

/// Most original posts served per followed author.
pub const MAX_ORIGINAL_POSTS_PER_AUTHOR: usize = 20;

/// Most replies and retweets served per followed author.
pub const MAX_REPLY_POSTS_PER_AUTHOR: usize = 20;

/// Most video posts served per followed author.
pub const MAX_VIDEO_POSTS_PER_AUTHOR: usize = 20;

/// How many of an author's newest posts are looked at before filtering.
pub const MAX_TINY_POSTS_PER_USER_SCAN: usize = 100;

/// Longest following list and exclusion list that a request is allowed to use.
pub const MAX_INPUT_LIST_SIZE: usize = 1000;

/// Posts returned when the request leaves `max_results` at zero.
pub const MAX_POSTS_TO_RETURN: usize = 400;

/// Video posts returned when the request leaves `max_results` at zero.
pub const MAX_VIDEOS_TO_RETURN: usize = 200;

/// Smallest following count at which a young account counts as a new user.
pub const NEW_USER_MIN_FOLLOWING: usize = 5;

/// Number of precomputed author-diversity multipliers.
pub const DIVERSITY_TABLE_SIZE: usize = 64;


} // verus!
