//! Ordering posts by creation time, and ranking entries by key, with std's
//! unstable slice sorts: each result holds the same items, ordered by the key,
//! with items of equal key in an order that the sort leaves open.
use std::cmp::Reverse;
use vstd::prelude::*;
use crate::post::{LightPost, sorted_oldest_first, sorted_newest_first};

verus! {

/// `slice::sort_unstable_by_key` with the creation time as key: the same posts,
/// oldest first.
#[verifier::external_body]
pub(crate) fn sort_oldest_first(posts: &mut Vec<LightPost>)
    ensures
        final(posts)@.to_multiset() == old(posts)@.to_multiset(),
        sorted_oldest_first(final(posts)@),
{
    posts.sort_unstable_by_key(|p| p.created_at);
}

/// `slice::sort_unstable_by_key` with the reversed creation time as key: the
/// same posts, newest first.
#[verifier::external_body]
pub(crate) fn sort_newest_first(posts: &mut Vec<LightPost>)
    ensures
        final(posts)@.to_multiset() == old(posts)@.to_multiset(),
        sorted_newest_first(final(posts)@),
{
    posts.sort_unstable_by_key(|p| Reverse(p.created_at));
}

/// `slice::select_nth_unstable_by_key` with the reversed creation time as key:
/// the same posts, reordered so that the post at `index` is where a newest-first
/// sort would put it, none before it older and none after it newer.
#[verifier::external_body]
pub(crate) fn select_nth_newest(posts: &mut Vec<LightPost>, index: usize)
    requires
        index < old(posts)@.len(),
    ensures
        final(posts)@.to_multiset() == old(posts)@.to_multiset(),
        forall|i: int| 0 <= i < index ==> #[trigger] final(posts)@[i].created_at >= final(posts)@[index as int].created_at,
        forall|j: int| index < j < final(posts)@.len() ==> #[trigger] final(posts)@[j].created_at <= final(posts)@[index as int].created_at,
{
    posts.select_nth_unstable_by_key(index, |p| Reverse(p.created_at));
}

/// `a` comes no later than `b` in the ranking order: higher key first, and on
/// equal keys the lower index first.
pub open spec fn ranks_no_later(a: (u64, usize), b: (u64, usize)) -> bool {
    a.0 > b.0 || (a.0 == b.0 && a.1 <= b.1)
}

/// `slice::sort_unstable_by_key` with the key `(Reverse(key), index)`: the same
/// entries, in ranking order.
#[verifier::external_body]
pub(crate) fn sort_by_rank(entries: &mut Vec<(u64, usize)>)
    ensures
        final(entries)@.to_multiset() == old(entries)@.to_multiset(),
        forall|s: int, t: int| 0 <= s <= t < final(entries)@.len() ==> ranks_no_later(#[trigger] final(entries)@[s], #[trigger] final(entries)@[t]),
{
    entries.sort_unstable_by_key(|&(key, index)| (Reverse(key), index));
}

} // verus!
