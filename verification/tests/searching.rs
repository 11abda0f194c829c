use fuzzy_score::params::{SCORE_MAX, SCORE_MIN};
use fuzzy_score::{has_match, score, search, search_score, Score};
use std::borrow::Cow;

fn owned(items: &[&str]) -> Vec<String> {
    items.iter().map(|s| s.to_string()).collect()
}

#[test]
fn search_lists_best_first() {
    let candidates = owned(&["app/models/zrder", "nothing here", "app/models/order"]);
    let found = search("amor", &candidates);
    assert_eq!(found.len(), 2);
    assert_eq!(found[0].index, 2);
    assert_eq!(found[0].score, 3695);
    assert_eq!(found[1].index, 0);
    assert_eq!(found[1].score, 2695);
}

#[test]
fn search_leaves_out_what_does_not_match() {
    let candidates = owned(&["def", "abc", "", "acb", "a-b-c"]);
    let found = search("abc", &candidates);
    let mut ids: Vec<usize> = found.iter().map(|s| s.index).collect();
    ids.sort();
    assert_eq!(ids, vec![1, 4]);
    for s in &found {
        assert!(has_match("abc", candidates[s.index].as_str()));
    }
}

#[test]
fn search_names_every_match_once() {
    let candidates = owned(&["test", "tests", "testing", "/testing", "attest", "tset", "t", ""]);
    let found = search("test", &candidates);
    let mut ids: Vec<usize> = found.iter().map(|s| s.index).collect();
    ids.sort();
    let expected: Vec<usize> = (0..candidates.len())
        .filter(|&i| has_match("test", candidates[i].as_str()))
        .collect();
    assert_eq!(ids, expected);
    assert_eq!(ids, vec![0, 1, 2, 3, 4]);
}

#[test]
fn search_scores_fall_along_the_list() {
    let candidates = owned(&["attest", "/testing", "testing", "tests", "test", "xx"]);
    let found = search("test", &candidates);
    let scores: Vec<i64> = found.iter().map(|s| s.score).collect();
    assert_eq!(scores, vec![SCORE_MAX, 3895, 3885, 3880, 2990]);
    let ids: Vec<usize> = found.iter().map(|s| s.index).collect();
    assert_eq!(ids, vec![4, 3, 2, 1, 0]);
}

#[test]
fn search_result_is_the_score_of_its_candidate() {
    let candidates = owned(&["foo_bar", "fooBar", "foobar", "fb", "bf"]);
    let found = search("fb", &candidates);
    assert_eq!(found.len(), 4);
    for s in &found {
        assert_eq!(s.score, score("fb", candidates[s.index].as_str(), s.index).score);
    }
    assert_eq!(found[0].index, 3);
    assert_eq!(found[1], Score::with_score(0, 1660));
    assert_eq!(found[1].index, 0);
    assert_eq!(found[2].index, 1);
    assert_eq!(found[2].score, 1570);
    assert_eq!(found[3].index, 2);
    assert_eq!(found[3].score, 870);
}

#[test]
fn search_with_empty_query_keeps_all() {
    let candidates = owned(&["b", "", "a"]);
    let found = search("", &candidates);
    assert_eq!(found.len(), 3);
    let mut ids: Vec<usize> = found.iter().map(|s| s.index).collect();
    ids.sort();
    assert_eq!(ids, vec![0, 1, 2]);
    for s in &found {
        assert_eq!(s.score, SCORE_MIN);
    }
}

#[test]
fn search_of_nothing_finds_nothing() {
    let candidates: Vec<String> = Vec::new();
    assert!(search("abc", &candidates).is_empty());
    assert!(search_score("", &candidates).is_empty());
}

#[test]
fn search_score_is_search() {
    let candidates = owned(&["Gemfile.lock", "Gemfile", "gem/file", "lock"]);
    let one = search("gemfil", &candidates);
    let two = search_score("gemfil", &candidates);
    assert_eq!(one.len(), 3);
    assert_eq!(one.len(), two.len());
    for k in 0..one.len() {
        assert_eq!(one[k].index, two[k].index);
        assert_eq!(one[k].score, two[k].score);
    }
    assert_eq!(one[0].index, 1);
    assert_eq!(one[1].index, 0);
    assert_eq!(one[2].index, 2);
}

#[test]
fn search_takes_references_and_cows() {
    let owned_items = owned(&["xa", "a-", "b"]);
    let refs: Vec<&String> = owned_items.iter().collect();
    let found = search("a", &refs);
    assert_eq!(found.len(), 2);
    assert_eq!(found[0], Score::with_score(1, 895));
    assert_eq!(found[0].index, 1);
    assert_eq!(found[1].index, 0);
    assert_eq!(found[1].score, -5);

    let cows: Vec<Cow<str>> = vec![Cow::Borrowed("xa"), Cow::Owned("a-".to_string())];
    let found = search("a", &cows);
    assert_eq!(found.len(), 2);
    assert_eq!(found[0].index, 1);
    assert_eq!(found[0].score, 895);
    assert_eq!(found[1].index, 0);
}
