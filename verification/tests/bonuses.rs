use fuzzy_score::bonus::{candidate_match_bonuses, character_match_bonus, is_separator};
use fuzzy_score::params::{
    SCORE_GAP_INNER, SCORE_GAP_LEADING, SCORE_GAP_TRAILING, SCORE_MATCH_CAPITAL,
    SCORE_MATCH_CONSECUTIVE, SCORE_MATCH_DOT, SCORE_MATCH_SLASH, SCORE_MATCH_WORD, SCORE_MAX,
};
use fuzzy_score::score;

#[test]
fn separators() {
    assert!(is_separator(' '));
    assert!(is_separator('-'));
    assert!(is_separator('_'));
    assert!(!is_separator('/'));
    assert!(!is_separator('.'));
    assert!(!is_separator('a'));
    assert!(!is_separator('\t'));
}

#[test]
fn bonus_by_previous_char() {
    assert_eq!(character_match_bonus('a', '/'), SCORE_MATCH_SLASH);
    assert_eq!(character_match_bonus('a', '.'), SCORE_MATCH_DOT);
    assert_eq!(character_match_bonus('a', ' '), SCORE_MATCH_WORD);
    assert_eq!(character_match_bonus('a', '-'), SCORE_MATCH_WORD);
    assert_eq!(character_match_bonus('a', '_'), SCORE_MATCH_WORD);
    assert_eq!(character_match_bonus('a', 'b'), 0);
    assert_eq!(character_match_bonus('a', 'B'), 0);
    assert_eq!(character_match_bonus('A', 'B'), 0);
    assert_eq!(character_match_bonus('A', '/'), SCORE_MATCH_SLASH);
}

#[test]
fn bonus_of_capital_after_lowercase() {
    assert_eq!(character_match_bonus('A', 'b'), SCORE_MATCH_CAPITAL);
    assert_eq!(character_match_bonus('Б', 'п'), SCORE_MATCH_CAPITAL);
    assert_eq!(character_match_bonus('A', '1'), 0);
    assert_eq!(character_match_bonus('1', 'a'), 0);
}

#[test]
fn bonuses_of_a_candidate() {
    assert_eq!(
        candidate_match_bonuses("a/b.c dE-f_gH"),
        vec![900, 0, 900, 0, 600, 0, 800, 700, 0, 800, 0, 800, 700]
    );
    assert_eq!(candidate_match_bonuses(""), Vec::<i64>::new());
    assert_eq!(candidate_match_bonuses("x"), vec![SCORE_MATCH_SLASH]);
}

#[test]
fn weights() {
    assert_eq!(SCORE_GAP_LEADING, -5);
    assert_eq!(SCORE_GAP_INNER, -10);
    assert_eq!(SCORE_GAP_TRAILING, -5);
    assert_eq!(SCORE_MATCH_CONSECUTIVE, 1000);
    assert_eq!(SCORE_MATCH_SLASH, 900);
    assert_eq!(SCORE_MATCH_WORD, 800);
    assert_eq!(SCORE_MATCH_CAPITAL, 700);
    assert_eq!(SCORE_MATCH_DOT, 600);
}

#[test]
fn score_word() {
    assert_eq!(SCORE_GAP_LEADING + SCORE_MATCH_WORD, score("a", "-a", 0).score);
    assert_eq!(SCORE_GAP_LEADING + SCORE_MATCH_WORD, score("a", "_a", 0).score);
    assert_eq!(SCORE_GAP_LEADING + SCORE_MATCH_WORD, score("a", " a", 0).score);
    assert_eq!(
        SCORE_MATCH_SLASH + SCORE_GAP_INNER + SCORE_MATCH_WORD,
        score("ab", "a-b", 0).score
    );
}

#[test]
fn score_of_spread_letters() {
    assert_eq!(
        SCORE_GAP_LEADING + SCORE_GAP_INNER + SCORE_GAP_TRAILING,
        score("ab", "xaxbx", 0).score
    );
    assert_eq!(-20, score("ab", "xaxbx", 0).score);
    assert_eq!(SCORE_MATCH_SLASH + SCORE_GAP_INNER + SCORE_MATCH_DOT, score("ab", "a.b", 0).score);
    assert_eq!(
        SCORE_MATCH_SLASH + SCORE_GAP_INNER + SCORE_MATCH_SLASH,
        score("ab", "a/b", 0).score
    );
    assert_eq!(
        SCORE_MATCH_SLASH + SCORE_MATCH_CONSECUTIVE + SCORE_GAP_TRAILING,
        score("ab", "AB.", 0).score
    );
}

#[test]
fn run_bonus_follows_the_best_of_the_cell_before() {
    // The second `a` stands after the better-placed first one, and `b`
    // directly after it.
    assert_eq!(
        SCORE_MATCH_SLASH + SCORE_GAP_INNER + SCORE_MATCH_CONSECUTIVE,
        score("ab", "aab", 0).score
    );
    assert_eq!(1890, score("ab", "aab", 0).score);
}

#[test]
fn case_does_not_change_exact() {
    assert_eq!(SCORE_MAX, score("ab", "aB", 0).score);
    assert_eq!(SCORE_MAX, score("fb", "fb", 0).score);
}
