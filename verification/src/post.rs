use vstd::prelude::*;

verus! {

/// A post as the store keeps it: identifiers, creation time and the flags that
/// decide in which per-author deque it lands and whether it is served.
#[derive(Clone, Copy, Debug, PartialEq, Eq, Default)]
pub struct LightPost {
    pub post_id: i64,
    pub author_id: i64,
    /// Creation time, in seconds since the Unix epoch.
    pub created_at: i64,
    pub is_reply: bool,
    pub is_retweet: bool,
    pub has_video: bool,
    /// For a retweet, the author of the retweeted post.
    pub source_user_id: Option<i64>,
    pub in_reply_to_post_id: Option<i64>,
    pub in_reply_to_user_id: Option<i64>,
}

/// A deletion of a post, with the time at which it was deleted.
#[derive(Clone, Copy, Debug, PartialEq, Eq, Default)]
pub struct TweetDeleteEvent {
    pub post_id: i64,
    pub deleted_at: i64,
}

impl LightPost {
    /// Neither a reply nor a retweet.
    pub open spec fn is_original(self) -> bool {
        !self.is_reply && !self.is_retweet
    }
}

/// `s` is ordered by creation time, oldest first.
pub open spec fn sorted_oldest_first(s: Seq<LightPost>) -> bool {
    forall|i: int, j: int| 0 <= i <= j < s.len() ==> s[i].created_at <= s[j].created_at
}

/// `s` is ordered by creation time, newest first.
pub open spec fn sorted_newest_first(s: Seq<LightPost>) -> bool {
    forall|i: int, j: int| 0 <= i <= j < s.len() ==> s[i].created_at >= s[j].created_at
}

} // verus!
