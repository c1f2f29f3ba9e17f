use thunder::config::DIVERSITY_TABLE_SIZE;
use thunder::ranking_scorer::{OonWeightSource, RankingScorer};

#[test]
fn topics_take_precedence() {
    assert_eq!(RankingScorer::oon_weight_source(true, Some(1), 100, 50), OonWeightSource::Topic);
}

#[test]
fn young_account_with_enough_follows_is_new_user() {
    assert_eq!(RankingScorer::oon_weight_source(false, Some(10), 100, 5), OonWeightSource::NewUser);
    assert_eq!(RankingScorer::oon_weight_source(false, Some(10), 100, 4), OonWeightSource::Standard);
    assert_eq!(RankingScorer::oon_weight_source(false, Some(100), 100, 50), OonWeightSource::Standard);
    assert_eq!(RankingScorer::oon_weight_source(false, None, 100, 50), OonWeightSource::Standard);
}

#[test]
fn oon_weight_only_for_known_out_of_network() {
    assert!(RankingScorer::applies_oon_weight(Some(false)));
    assert!(!RankingScorer::applies_oon_weight(Some(true)));
    assert!(!RankingScorer::applies_oon_weight(None));
}

#[test]
fn table_slots() {
    assert_eq!(RankingScorer::diversity_table_slot(0), Some(0));
    assert_eq!(RankingScorer::diversity_table_slot(DIVERSITY_TABLE_SIZE - 1), Some(DIVERSITY_TABLE_SIZE - 1));
    assert_eq!(RankingScorer::diversity_table_slot(DIVERSITY_TABLE_SIZE), None);
}

#[test]
fn positions_count_higher_ranked_candidates_of_same_author() {
    let authors = [1, 2, 1, 1, 2];
    let keys = [10, 50, 30, 30, 5];
    // author 1: candidate 2 and 3 tie at 30 (2 first), then candidate 0 at 10
    // author 2: candidate 1 at 50, then candidate 4 at 5
    assert_eq!(RankingScorer::author_positions(&authors, &keys), vec![2, 0, 0, 1, 1]);
}

#[test]
fn positions_of_empty_list() {
    assert!(RankingScorer::author_positions(&[], &[]).is_empty());
}
