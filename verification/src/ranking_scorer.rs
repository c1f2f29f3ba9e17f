//! The decisions of the ranking stage that do not depend on floating point: which
//! out-of-network weight applies, and where each candidate stands among the
//! candidates of its author for the author-diversity decay.
use vstd::prelude::*;
use std::collections::HashMap;
use crate::config::{NEW_USER_MIN_FOLLOWING, DIVERSITY_TABLE_SIZE};
use crate::sorting::{sort_by_rank, ranks_no_later};

verus! {

broadcast use {vstd::seq_lib::group_to_multiset_ensures, vstd::std_specs::hash::group_hash_axioms};

/// Scores candidates: weighted engagement predictions, decayed for repeated
/// authors and scaled down for out-of-network posts.
pub struct RankingScorer;

/// Which factor scales the score of an out-of-network candidate.
#[derive(Clone, Copy, Debug, PartialEq, Eq)]
pub enum OonWeightSource {
    /// The request is about topics: the topic factor.
    Topic,
    /// A young account that follows enough users: the new-user factor.
    NewUser,
    /// Everyone else: the configured out-of-network factor.
    Standard,
}

/// The factor for a request: topics first; then a new user, whose account is
/// known to be younger than the threshold and who follows at least
/// `NEW_USER_MIN_FOLLOWING` users; else the standard factor.
pub open spec fn oon_weight_source_spec(
    has_topic_ids: bool,
    account_age_secs: Option<u64>,
    new_user_age_threshold_secs: u64,
    followed_user_count: usize,
) -> OonWeightSource {
    if has_topic_ids {
        OonWeightSource::Topic
    } else if account_age_secs matches Some(age) && age < new_user_age_threshold_secs
        && followed_user_count >= NEW_USER_MIN_FOLLOWING {
        OonWeightSource::NewUser
    } else {
        OonWeightSource::Standard
    }
}

/// Candidate `j` is ranked above candidate `i`: a higher rank key, or an equal
/// key and an earlier position in the candidate list.
pub open spec fn ranked_above(rank_keys: Seq<u64>, j: int, i: int) -> bool {
    rank_keys[j] > rank_keys[i] || (rank_keys[j] == rank_keys[i] && j < i)
}

/// The candidates of the same author as candidate `i` that are ranked above it.
pub open spec fn same_author_above(author_ids: Seq<u64>, rank_keys: Seq<u64>, i: int) -> Set<int> {
    Set::new(|j: int| 0 <= j < author_ids.len() && author_ids[j] == author_ids[i] && ranked_above(rank_keys, j, i))
}

/// The entries of `e` whose candidate has author `a`.
pub open spec fn of_author(e: Seq<(u64, usize)>, author_ids: Seq<u64>, a: u64) -> Seq<(u64, usize)> {
    e.filter(by_author(author_ids, a))
}

/// The entry's candidate has author `a`.
pub open spec fn by_author(author_ids: Seq<u64>, a: u64) -> spec_fn((u64, usize)) -> bool {
    |x: (u64, usize)| author_ids[x.1 as int] == a
}

/// How many of the first `t` entries of `e` are candidates of author `a`.
pub open spec fn count_before(e: Seq<(u64, usize)>, author_ids: Seq<u64>, t: int, a: u64) -> nat {
    of_author(e.take(t), author_ids, a).len()
}

/// Every element of a filtered sequence is in the sequence.
proof fn lemma_filter_in_source<A>(s: Seq<A>, f: spec_fn(A) -> bool)
    ensures
        forall|i: int| 0 <= i < s.filter(f).len() ==> s.contains(#[trigger] s.filter(f)[i]),
    decreases s.len(),
{
    reveal_with_fuel(Seq::filter, 1);
    if s.len() > 0 {
        lemma_filter_in_source(s.drop_last(), f);
        let sub = s.drop_last().filter(f);
        assert forall|i: int| 0 <= i < s.filter(f).len() implies s.contains(#[trigger] s.filter(f)[i]) by {
            if i < sub.len() {
                assert(s.filter(f)[i] == sub[i]);
                let k = choose|k: int| 0 <= k < s.drop_last().len() && s.drop_last()[k] == sub[i];
                assert(s[k] == sub[i]);
            } else {
                assert(s.filter(f)[i] == s.last());
                assert(s[s.len() - 1] == s.last());
            }
        }
    }
}

/// Filtering keeps a sequence free of duplicates.
proof fn lemma_filter_no_duplicates<A>(s: Seq<A>, f: spec_fn(A) -> bool)
    requires
        s.no_duplicates(),
    ensures
        s.filter(f).no_duplicates(),
    decreases s.len(),
{
    reveal_with_fuel(Seq::filter, 1);
    if s.len() > 0 {
        let init = s.drop_last();
        assert(init.no_duplicates());
        lemma_filter_no_duplicates(init, f);
        lemma_filter_in_source(init, f);
        let sub = init.filter(f);
        if f(s.last()) {
            assert forall|i: int| 0 <= i < sub.len() implies sub[i] != s.last() by {
                assert(init.contains(sub[i]));
                let k = choose|k: int| 0 <= k < init.len() && init[k] == sub[i];
                assert(s[k] == init[k]);
            }
        }
    }
}

/// Some entry of `e` is candidate `i`.
pub open spec fn lists_candidate(e: Seq<(u64, usize)>, i: int) -> bool {
    exists|t: int| 0 <= t < e.len() && (#[trigger] e[t]).1 == i
}

/// `e` lists every candidate once, as (rank key, index), in ranking order.
pub open spec fn ranking_of(e: Seq<(u64, usize)>, rank_keys: Seq<u64>) -> bool {
    &&& e.len() == rank_keys.len()
    &&& forall|t: int| 0 <= t < e.len() ==> (#[trigger] e[t]).1 < rank_keys.len() && e[t].0 == rank_keys[e[t].1 as int]
    &&& forall|i: int| 0 <= i < rank_keys.len() ==> #[trigger] lists_candidate(e, i)
    &&& forall|s: int, t: int| 0 <= s < e.len() && 0 <= t < e.len() && s != t ==> (#[trigger] e[s]).1 != (#[trigger] e[t]).1
    &&& forall|s: int, t: int| 0 <= s <= t < e.len() ==> ranks_no_later(#[trigger] e[s], #[trigger] e[t])
}

/// A permutation of the entries `(rank_keys[i], i)` in ranking order lists every
/// candidate once.
proof fn lemma_sorted_entries(e0: Seq<(u64, usize)>, e: Seq<(u64, usize)>, rank_keys: Seq<u64>)
    requires
        e0.len() == rank_keys.len(),
        rank_keys.len() <= usize::MAX,
        forall|j: int| 0 <= j < e0.len() ==> #[trigger] e0[j] == (rank_keys[j], j as usize),
        e.to_multiset() == e0.to_multiset(),
        forall|s: int, t: int| 0 <= s <= t < e.len() ==> ranks_no_later(#[trigger] e[s], #[trigger] e[t]),
    ensures
        ranking_of(e, rank_keys),
{
    e.to_multiset_ensures();
    e0.to_multiset_ensures();
    assert(e.len() == e0.len()) by {
        assert(e.to_multiset().len() == e0.to_multiset().len());
    }
    assert(e0.no_duplicates()) by {
        assert forall|a: int, b: int| 0 <= a < e0.len() && 0 <= b < e0.len() && a != b implies e0[a] != e0[b] by {
            assert(e0[a].1 == a as usize);
            assert(e0[b].1 == b as usize);
        }
    }
    e0.lemma_multiset_has_no_duplicates();
    e.lemma_multiset_has_no_duplicates_conv();
    assert forall|t: int| 0 <= t < e.len() implies (#[trigger] e[t]).1 < rank_keys.len() && e[t].0 == rank_keys[e[t].1 as int] by {
        assert(e.to_multiset().count(e[t]) > 0);
        assert(e0.to_multiset().count(e[t]) > 0);
        assert(e0.contains(e[t]));
        let j = choose|j: int| 0 <= j < e0.len() && e0[j] == e[t];
    }
    assert forall|i: int| 0 <= i < rank_keys.len() implies #[trigger] lists_candidate(e, i) by {
        assert(e0.to_multiset().count(e0[i]) > 0);
        assert(e.to_multiset().count(e0[i]) > 0);
        assert(e.contains(e0[i]));
        let t = choose|t: int| 0 <= t < e.len() && e[t] == e0[i];
        assert(e[t].1 == i);
    }
    assert forall|s: int, t: int| 0 <= s < e.len() && 0 <= t < e.len() && s != t implies (#[trigger] e[s]).1 != (#[trigger] e[t]).1 by {
        if e[s].1 == e[t].1 {
            assert(e[s].0 == rank_keys[e[s].1 as int]);
            assert(e[t].0 == rank_keys[e[t].1 as int]);
            assert(e[s] == e[t]);
        }
    }
}

/// Counted in ranking order, the candidates of the author of candidate `i` that
/// come before it are those of `same_author_above`.
proof fn lemma_position_count(e: Seq<(u64, usize)>, author_ids: Seq<u64>, rank_keys: Seq<u64>, t: int)
    requires
        ranking_of(e, rank_keys),
        author_ids.len() == rank_keys.len(),
        0 <= t < e.len(),
    ensures
        of_author(e.take(t), author_ids, author_ids[e[t].1 as int]).len()
            == same_author_above(author_ids, rank_keys, e[t].1 as int).len(),
{
    let i = e[t].1 as int;
    let a = author_ids[i];
    let prefix = e.take(t);
    let f = by_author(author_ids, a);
    let fs = of_author(prefix, author_ids, a);
    assert(prefix.no_duplicates()) by {
        assert forall|u: int, v: int| 0 <= u < prefix.len() && 0 <= v < prefix.len() && u != v implies prefix[u] != prefix[v] by {
            assert(prefix[u] == e[u]);
            assert(prefix[v] == e[v]);
        }
    }
    lemma_filter_no_duplicates(prefix, f);
    lemma_filter_in_source(prefix, f);
    broadcast use vstd::seq_lib::group_filter_ensures;
    let g = fs.map_values(|x: (u64, usize)| x.1 as int);
    assert forall|u: int| 0 <= u < fs.len() implies exists|s: int| 0 <= s < t && e[s] == #[trigger] fs[u] by {
        assert(prefix.contains(fs[u]));
        let s = choose|s: int| 0 <= s < prefix.len() && prefix[s] == fs[u];
        assert(e[s] == prefix[s]);
    }
    assert(g.no_duplicates()) by {
        assert forall|u: int, v: int| 0 <= u < g.len() && 0 <= v < g.len() && u != v implies g[u] != g[v] by {
            let su = choose|s: int| 0 <= s < t && e[s] == #[trigger] fs[u];
            let sv = choose|s: int| 0 <= s < t && e[s] == #[trigger] fs[v];
            if g[u] == g[v] {
                assert(e[su].1 == e[sv].1);
                assert(su == sv);
                assert(fs[u] == fs[v]);
            }
        }
    }
    let above = same_author_above(author_ids, rank_keys, i);
    assert(g.to_set() =~= above) by {
        assert forall|x: int| g.to_set().contains(x) implies above.contains(x) by {
            let u = choose|u: int| 0 <= u < g.len() && g[u] == x;
            let s = choose|s: int| 0 <= s < t && e[s] == #[trigger] fs[u];
            assert(f(fs[u]));
            assert(ranks_no_later(e[s], e[t]));
            assert(e[s].1 != e[t].1);
        }
        assert forall|x: int| above.contains(x) implies g.to_set().contains(x) by {
            assert(lists_candidate(e, x));
            let s = choose|s: int| 0 <= s < e.len() && (#[trigger] e[s]).1 == x;
            if s >= t {
                if s == t {
                    assert(false);
                } else {
                    assert(ranks_no_later(e[t], e[s]));
                    assert(false);
                }
            }
            assert(prefix[s] == e[s]);
            assert(f(prefix[s]));
            assert(fs.contains(prefix[s]));
            let u = choose|u: int| 0 <= u < fs.len() && fs[u] == prefix[s];
            assert(g[u] == x);
        }
    }
    g.unique_seq_to_set();
}

impl RankingScorer {
    /// Which out-of-network factor applies to a request. `account_age_secs` is
    /// the age of the requesting account in whole seconds, where it is known.
    pub fn oon_weight_source(
        has_topic_ids: bool,
        account_age_secs: Option<u64>,
        new_user_age_threshold_secs: u64,
        followed_user_count: usize,
    ) -> (source: OonWeightSource)
        ensures
            source == oon_weight_source_spec(has_topic_ids, account_age_secs, new_user_age_threshold_secs, followed_user_count),
    {
        if has_topic_ids {
            return OonWeightSource::Topic;
        }
        let young = match account_age_secs {
            Some(age) => age < new_user_age_threshold_secs,
            None => false,
        };
        if young && followed_user_count >= NEW_USER_MIN_FOLLOWING {
            OonWeightSource::NewUser
        } else {
            OonWeightSource::Standard
        }
    }

    /// Whether the out-of-network factor scales a candidate: only where the
    /// candidate is known to be out of network.
    pub fn applies_oon_weight(in_network: Option<bool>) -> (applies: bool)
        ensures
            applies == (in_network == Some(false)),
    {
        match in_network {
            Some(false) => true,
            _ => false,
        }
    }

    /// The slot of the precomputed diversity table for a candidate at `position`
    /// among its author's candidates; beyond the table the multiplier is the floor.
    pub fn diversity_table_slot(position: usize) -> (slot: Option<usize>)
        ensures
            slot == if position < DIVERSITY_TABLE_SIZE { Some(position) } else { None::<usize> },
    {
        if position < DIVERSITY_TABLE_SIZE {
            Some(position)
        } else {
            None
        }
    }

    /// For each candidate, the number of candidates of the same author ranked
    /// above it: its position in its author's decay. Candidates are ranked by
    /// `rank_keys`, higher first, and on equal keys by their order in the list.
    pub fn author_positions(author_ids: &[u64], rank_keys: &[u64]) -> (positions: Vec<usize>)
        requires
            author_ids@.len() == rank_keys@.len(),
        ensures
            positions@.len() == author_ids@.len(),
            forall|i: int| 0 <= i < positions@.len() ==>
                #[trigger] positions@[i] == same_author_above(author_ids@, rank_keys@, i).len(),
    {
        let n = author_ids.len();
        let mut entries: Vec<(u64, usize)> = Vec::new();
        for i in 0..n
            invariant
                n == rank_keys@.len(),
                entries@.len() == i,
                forall|j: int| 0 <= j < i ==> #[trigger] entries@[j] == (rank_keys@[j], j as usize),
        {
            entries.push((rank_keys[i], i));
        }
        let ghost unsorted = entries@;
        sort_by_rank(&mut entries);
        let ghost e = entries@;
        proof {
            lemma_sorted_entries(unsorted, e, rank_keys@);
        }
        let mut positions: Vec<usize> = Vec::new();
        for i in 0..n
            invariant
                positions@.len() == i,
        {
            positions.push(0);
        }
        let mut counts: HashMap<u64, usize> = HashMap::new();
        proof {
            assert forall|a: u64| #[trigger] count_before(e, author_ids@, 0, a) == 0 by {
                reveal_with_fuel(Seq::filter, 1);
                assert(e.take(0) =~= Seq::<(u64, usize)>::empty());
            }
        }
        let mut t: usize = 0;
        while t < n
            invariant
                t <= n,
                n == author_ids@.len(),
                n == rank_keys@.len(),
                e == entries@,
                ranking_of(e, rank_keys@),
                positions@.len() == n,
                forall|a: u64| #[trigger] counts@.contains_key(a) ==> counts@[a] == count_before(e, author_ids@, t as int, a),
                forall|a: u64| !counts@.contains_key(a) ==> #[trigger] count_before(e, author_ids@, t as int, a) == 0,
                forall|a: u64| #[trigger] count_before(e, author_ids@, t as int, a) <= t,
                forall|s: int| 0 <= s < t ==> positions@[(#[trigger] e[s]).1 as int]
                    == count_before(e, author_ids@, s, author_ids@[e[s].1 as int]),
            decreases n - t,
        {
            let (key, idx) = entries[t];
            let a = author_ids[idx];
            let pos = match counts.get(&a) {
                Some(c) => *c,
                None => 0,
            };
            assert(pos == count_before(e, author_ids@, t as int, a));
            positions.set(idx, pos);
            counts.insert(a, pos + 1);
            proof {
                reveal_with_fuel(Seq::filter, 1);
                assert(e.take(t + 1).drop_last() =~= e.take(t as int));
                assert(e.take(t + 1).last() == e[t as int]);
                assert forall|b: u64| b != a implies #[trigger] count_before(e, author_ids@, t + 1, b)
                    == count_before(e, author_ids@, t as int, b) by {
                    assert(!by_author(author_ids@, b)(e[t as int]));
                }
                assert(by_author(author_ids@, a)(e[t as int]));
                assert(count_before(e, author_ids@, t + 1, a) == count_before(e, author_ids@, t as int, a) + 1);
                assert forall|s: int| 0 <= s < t + 1 implies positions@[(#[trigger] e[s]).1 as int]
                    == count_before(e, author_ids@, s, author_ids@[e[s].1 as int]) by {
                    if s < t {
                        assert(e[s].1 != e[t as int].1);
                    }
                }
            }
            t = t + 1;
        }
        proof {
            assert forall|i: int| 0 <= i < positions@.len() implies
                #[trigger] positions@[i] == same_author_above(author_ids@, rank_keys@, i).len() by {
                assert(lists_candidate(e, i));
                let t = choose|t: int| 0 <= t < e.len() && (#[trigger] e[t]).1 == i;
                lemma_position_count(e, author_ids@, rank_keys@, t);
            }
        }
        positions
    }
}

} // verus!
