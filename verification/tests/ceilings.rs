use fuzzy_score::classify::Metric;
use fuzzy_score::params::{
    CANDIDATE_MAX_BYTES, CANDIDATE_MAX_CHARS, SCORE_GAP_LEADING, SCORE_GAP_TRAILING,
    SCORE_MATCH_CONSECUTIVE, SCORE_MATCH_SLASH, SCORE_MAX, SCORE_MIN,
};
use fuzzy_score::score;

#[test]
fn candidate_of_too_many_bytes_is_not_ranked() {
    let candidate = "a".repeat(CANDIDATE_MAX_BYTES + 1);
    assert_eq!(score("a", &candidate, 0).score, SCORE_MIN);
    let same = "a".repeat(CANDIDATE_MAX_BYTES + 1);
    assert_eq!(score(&same, &candidate, 0).score, SCORE_MIN);
    let wide = "é".repeat(CANDIDATE_MAX_CHARS + 1);
    assert_eq!(wide.len(), CANDIDATE_MAX_BYTES + 2);
    assert_eq!(score("é", &wide, 0).score, SCORE_MIN);
}

#[test]
fn candidate_of_too_many_chars_is_not_ranked() {
    let candidate = "a".repeat(CANDIDATE_MAX_CHARS + 1);
    assert_eq!(score("a", &candidate, 0).score, SCORE_MIN);
    assert_eq!(score("aaa", &candidate, 0).score, SCORE_MIN);
}

#[test]
fn candidate_at_the_ceilings_is_ranked() {
    let candidate = "a".repeat(CANDIDATE_MAX_CHARS);
    let expected = SCORE_MATCH_SLASH + 1023 * SCORE_GAP_TRAILING;
    assert_eq!(expected, -4215);
    assert_eq!(score("a", &candidate, 0).score, expected);
    let wide = "é".repeat(CANDIDATE_MAX_CHARS);
    assert_eq!(wide.len(), CANDIDATE_MAX_BYTES);
    assert_eq!(score("é", &wide, 0).score, expected);
}

#[test]
fn equal_lengths_decide_before_the_char_ceiling() {
    let text = "a".repeat(1500);
    assert_eq!(score(&text, &text, 0).score, SCORE_MAX);
}

#[test]
fn largest_grid_is_filled() {
    let query = "a".repeat(CANDIDATE_MAX_CHARS - 1);
    let candidate = "a".repeat(CANDIDATE_MAX_CHARS);
    let expected = SCORE_MATCH_SLASH + 1022 * SCORE_MATCH_CONSECUTIVE + SCORE_GAP_TRAILING;
    assert_eq!(expected, 1_022_895);
    assert_eq!(score(&query, &candidate, 0).score, expected);
}

#[test]
fn query_longer_than_candidate_is_not_ranked() {
    assert_eq!(score("abc", "ab", 0).score, SCORE_MIN);
    assert_eq!(score("a", "", 0).score, SCORE_MIN);
    let long = "a".repeat(5000);
    assert_eq!(score(&long, "a", 0).score, SCORE_MIN);
}

#[test]
fn candidate_without_the_letters_is_not_ranked() {
    assert_eq!(score("x", "ab", 0).score, SCORE_MIN);
    assert_eq!(score("ba", "abc", 0).score, SCORE_MIN);
    assert_eq!(score("abd", "abcc", 0).score, SCORE_MIN);
}

#[test]
fn score_carries_the_index() {
    assert_eq!(score("a", "xa", 17).index, 17);
    assert_eq!(score("a", "xa", 17).score, SCORE_GAP_LEADING);
    assert_eq!(score("", "xa", 3).index, 3);
    assert_eq!(score("xa", "xa", usize::MAX).index, usize::MAX);
}

#[test]
fn classify_by_sizes() {
    assert!(matches!(Metric::classify("", "abc"), Metric::Score(SCORE_MIN)));
    assert!(matches!(Metric::classify("", ""), Metric::Score(SCORE_MIN)));
    assert!(matches!(Metric::classify("abc", "xyz"), Metric::Score(SCORE_MAX)));
    assert!(matches!(Metric::classify("ab", "xyz"), Metric::Lengths(2, 3)));
    assert!(matches!(Metric::classify("abcd", "é"), Metric::Lengths(4, 1)));
    assert!(matches!(Metric::classify("a", ""), Metric::Lengths(1, 0)));
    let long = "a".repeat(CANDIDATE_MAX_CHARS + 1);
    assert!(matches!(Metric::classify("a", &long), Metric::Score(SCORE_MIN)));
    assert!(matches!(Metric::classify(&long, &long), Metric::Score(SCORE_MAX)));
    let longer = "a".repeat(CANDIDATE_MAX_BYTES + 1);
    assert!(matches!(Metric::classify(&longer, &longer), Metric::Score(SCORE_MIN)));
    let edge = "a".repeat(CANDIDATE_MAX_CHARS);
    assert!(matches!(Metric::classify("a", &edge), Metric::Lengths(1, 1024)));
}
