use crate::engine::score;
use crate::model::{score_of, subsequence_match};
use crate::prefilter::has_match;
use crate::score::Score;
use crate::search_item::SearchItem;
use std::cmp::Ordering;
use vstd::prelude::*;

verus! {

/// `out` is the ranking of `items` for the query `q`: one score for each
/// item that matches, none for the others, the best first.
pub open spec fn is_ranking<S: SearchItem>(out: Seq<Score>, q: Seq<char>, items: Seq<S>) -> bool {
    &&& forall|a: int, b: int| 0 <= a < b < out.len() ==> out[a].score >= out[b].score
    &&& forall|k: int| 0 <= k < out.len() ==> is_score_of(#[trigger] out[k], q, items)
    &&& forall|i: int|
        0 <= i < items.len() && subsequence_match(q, #[trigger] items[i].text()) ==> exists|k: int|
            0 <= k < out.len() && #[trigger] out[k].index == i
    &&& forall|a: int, b: int| 0 <= a < b < out.len() ==> out[a].index != out[b].index
}

/// `s` is the score of the item that it names, and that item matches.
pub open spec fn is_score_of<S: SearchItem>(s: Score, q: Seq<char>, items: Seq<S>) -> bool {
    &&& s.index < items.len()
    &&& subsequence_match(q, items[s.index as int].text())
    &&& s.score == score_of(q, items[s.index as int].text())
}

/// The order in which results are listed: the higher score comes first, and
/// equal scores are ranked alike.
pub fn best_first(left: &Score, right: &Score) -> (r: Ordering)
    ensures
        r == Ordering::Less <==> left.score > right.score,
        r == Ordering::Greater <==> left.score < right.score,
        r == Ordering::Equal <==> left.score == right.score,
{
    match left.partial_cmp(right) {
        Some(order) => order,
        None => Ordering::Less,
    }
}

/// `sort_unstable_by` of std with `best_first` as the order: the vector
/// keeps its elements, each as often as before, and no element stands
/// before one that `best_first` puts ahead of it. Which of two equal scores
/// comes first is left open.
#[verifier::external_body]
fn sort_best_first(v: &mut Vec<Score>)
    ensures
        final(v)@.to_multiset() == old(v)@.to_multiset(),
        forall|a: int, b: int|
            0 <= a < b < final(v)@.len() ==> final(v)@[a].score >= final(v)@[b].score,
{
    v.sort_unstable_by(|left, right| best_first(left, right));
}

/// Sorting keeps a list of scores the list of the same items' scores.
proof fn lemma_sorted_is_ranking<S: SearchItem>(
    before: Seq<Score>,
    after: Seq<Score>,
    q: Seq<char>,
    items: Seq<S>,
)
    requires
        after.to_multiset() == before.to_multiset(),
        forall|a: int, b: int| 0 <= a < b < after.len() ==> after[a].score >= after[b].score,
        forall|k: int| 0 <= k < before.len() ==> is_score_of(#[trigger] before[k], q, items),
        forall|i: int|
            0 <= i < items.len() && subsequence_match(q, #[trigger] items[i].text())
                ==> exists|k: int| 0 <= k < before.len() && #[trigger] before[k].index == i,
        forall|a: int, b: int| 0 <= a < b < before.len() ==> before[a].index < before[b].index,
    ensures
        is_ranking(after, q, items),
{
    before.to_multiset_ensures();
    after.to_multiset_ensures();
    assert forall|k: int| 0 <= k < after.len() implies is_score_of(
        #[trigger] after[k],
        q,
        items,
    ) by {
        assert(after.contains(after[k]));
        assert(before.to_multiset().count(after[k]) > 0);
        assert(before.contains(after[k]));
    }
    assert forall|i: int|
        0 <= i < items.len() && subsequence_match(q, #[trigger] items[i].text()) implies exists|
        k: int,
    | 0 <= k < after.len() && #[trigger] after[k].index == i by {
        let kb = choose|k: int| 0 <= k < before.len() && #[trigger] before[k].index == i;
        assert(before.contains(before[kb]));
        assert(after.to_multiset().count(before[kb]) > 0);
        assert(after.contains(before[kb]));
        let ka = choose|k: int| 0 <= k < after.len() && after[k] == before[kb];
        assert(after[ka].index == i);
    }
    assert(before.no_duplicates()) by {
        assert forall|a: int, b: int|
            0 <= a < before.len() && 0 <= b < before.len() && a != b implies before[a]
            != before[b] by {
            if a < b {
                assert(before[a].index < before[b].index);
            } else {
                assert(before[b].index < before[a].index);
            }
        }
    }
    before.lemma_multiset_has_no_duplicates();
    after.lemma_multiset_has_no_duplicates_conv();
    assert forall|a: int, b: int| 0 <= a < b < after.len() implies after[a].index
        != after[b].index by {
        assert(is_score_of(after[a], q, items));
        assert(is_score_of(after[b], q, items));
        assert(after[a] != after[b]);
    }
}

/// Scores every candidate that matches `query` and lists the scores, the
/// best first. A score's `index` is the candidate's place in `candidates`.
pub fn search_internal<S: SearchItem>(query: &str, candidates: &[S]) -> (r: Vec<Score>)
    ensures
        is_ranking(r@, query@, candidates@),
{
    let mut out: Vec<Score> = Vec::with_capacity(candidates.len());
    for i in 0..candidates.len()
        invariant
            forall|k: int| 0 <= k < out@.len() ==> is_score_of(#[trigger] out@[k], query@, candidates@),
            forall|k: int| 0 <= k < out@.len() ==> (#[trigger] out@[k]).index < i,
            forall|n: int|
                0 <= n < i && subsequence_match(query@, #[trigger] candidates@[n].text())
                    ==> exists|k: int| 0 <= k < out@.len() && #[trigger] out@[k].index == n,
            forall|a: int, b: int| 0 <= a < b < out@.len() ==> out@[a].index < out@[b].index,
    {
        let candidate = &candidates[i];
        if has_match(query, candidate) {
            let ghost before = out@;
            out.push(score(query, candidate.as_str(), i));
            proof {
                assert forall|n: int|
                    0 <= n < i + 1 && subsequence_match(
                        query@,
                        #[trigger] candidates@[n].text(),
                    ) implies exists|k: int| 0 <= k < out@.len() && #[trigger] out@[k].index == n by {
                    if n < i {
                        let k = choose|k: int| 0 <= k < before.len() && #[trigger] before[k].index == n;
                        assert(out@[k].index == n);
                    } else {
                        assert(out@[before.len() as int].index == n);
                    }
                }
            }
        }
    }
    let ghost unsorted = out@;
    sort_best_first(&mut out);
    proof {
        lemma_sorted_is_ranking(unsorted, out@, query@, candidates@);
    }
    out
}

/// Searches `candidates` for `query`: the scores of the candidates that
/// match, the best first.
pub fn search_score<T: SearchItem>(query: &str, candidates: &[T]) -> (r: Vec<Score>)
    ensures
        is_ranking(r@, query@, candidates@),
{
    search_internal(query, candidates)
}

/// Searches `candidates` for `query`: the scores of the candidates that
/// match, the best first.
pub fn search<T: SearchItem>(query: &str, candidates: &[T]) -> (r: Vec<Score>)
    ensures
        is_ranking(r@, query@, candidates@),
{
    search_internal(query, candidates)
}

} // verus!
