use crate::engine::{lemma_overall_bounds, lemma_overall_needs_room};
use crate::model::{
    bonus_at, byte_len, ending, is_alignment, match_value, overall, score_of, subsequence_match,
};
use crate::params::{CANDIDATE_MAX_BYTES, CANDIDATE_MAX_CHARS, SCORE_MAX, SCORE_MIN};
use crate::score::Score;
use crate::search::is_ranking;
use crate::search_item::SearchItem;
use crate::text::folds_equal;
use vstd::prelude::*;

verus! {

/// Every candidate, the empty one too, matches the empty query.
pub proof fn lemma_empty_query_matches(c: Seq<char>)
    ensures
        subsequence_match(Seq::<char>::empty(), c),
{
    assert(is_alignment(Seq::<char>::empty(), c, Seq::<int>::empty()));
}

/// An alignment matches query position `k` no earlier than candidate
/// position `k`, and leaves room behind it for the rest of the query.
pub proof fn lemma_alignment_bounds(q: Seq<char>, c: Seq<char>, pos: Seq<int>, k: int)
    requires
        is_alignment(q, c, pos),
        0 <= k < q.len(),
    ensures
        k <= pos[k] <= c.len() - (q.len() - k),
{
    lemma_alignment_from_front(q, c, pos, k);
    lemma_alignment_from_back(q, c, pos, k);
}

proof fn lemma_alignment_from_front(q: Seq<char>, c: Seq<char>, pos: Seq<int>, k: int)
    requires
        is_alignment(q, c, pos),
        0 <= k < q.len(),
    ensures
        k <= pos[k],
    decreases k,
{
    if k > 0 {
        lemma_alignment_from_front(q, c, pos, k - 1);
    }
}

proof fn lemma_alignment_from_back(q: Seq<char>, c: Seq<char>, pos: Seq<int>, k: int)
    requires
        is_alignment(q, c, pos),
        0 <= k < q.len(),
    ensures
        pos[k] <= c.len() - (q.len() - k),
    decreases q.len() - k,
{
    if k < q.len() - 1 {
        lemma_alignment_from_back(q, c, pos, k + 1);
    }
}

/// A query that matches a candidate is no longer than the candidate.
pub proof fn lemma_match_is_no_longer(q: Seq<char>, c: Seq<char>)
    requires
        subsequence_match(q, c),
    ensures
        q.len() <= c.len(),
{
    let pos = choose|pos: Seq<int>| is_alignment(q, c, pos);
    if q.len() > 0 {
        lemma_alignment_bounds(q, c, pos, 0);
    }
}

/// A query that matches a candidate of its own length holds the same
/// letters as the candidate, position by position.
pub proof fn lemma_equal_lengths_same_letters(q: Seq<char>, c: Seq<char>)
    requires
        subsequence_match(q, c),
        q.len() == c.len(),
    ensures
        forall|k: int| 0 <= k < q.len() ==> folds_equal(#[trigger] q[k], c[k]),
{
    let pos = choose|pos: Seq<int>| is_alignment(q, c, pos);
    assert forall|k: int| 0 <= k < q.len() implies folds_equal(#[trigger] q[k], c[k]) by {
        lemma_alignment_bounds(q, c, pos, k);
        assert(pos[k] == k);
    }
}

/// Only a candidate with as many code points as the query gets the highest
/// score.
pub proof fn lemma_highest_score_needs_equal_lengths(q: Seq<char>, c: Seq<char>)
    requires
        score_of(q, c) == SCORE_MAX,
    ensures
        q.len() == c.len(),
{
    lemma_overall_bounds(q, c, q.len() - 1, c.len() - 1);
    lemma_overall_needs_room(q, c, q.len() - 1, c.len() - 1);
}

/// A candidate that matches the query and gets the highest score is the
/// query, letter by letter, whatever the case of each.
pub proof fn lemma_highest_score_is_exact(q: Seq<char>, c: Seq<char>)
    requires
        subsequence_match(q, c),
        score_of(q, c) == SCORE_MAX,
    ensures
        q.len() == c.len(),
        forall|k: int| 0 <= k < q.len() ==> folds_equal(#[trigger] q[k], c[k]),
{
    lemma_highest_score_needs_equal_lengths(q, c);
    lemma_equal_lengths_same_letters(q, c);
}

/// An empty query, a candidate of too many bytes, and a candidate of too
/// many code points that is not as long as the query get the lowest score.
pub proof fn lemma_unranked(q: Seq<char>, c: Seq<char>)
    requires
        q.len() == 0 || byte_len(c) > CANDIDATE_MAX_BYTES || (c.len() > CANDIDATE_MAX_CHARS
            && q.len() != c.len()),
    ensures
        score_of(q, c) == SCORE_MIN,
{
}

/// How a match of the first `i + 1` query letters in the first `j + 1`
/// candidate positions comes about: either without the last of these
/// positions, or with it as the match of the last letter.
proof fn lemma_match_step(q: Seq<char>, c: Seq<char>, i: int, j: int)
    requires
        0 <= i < q.len(),
        0 <= j < c.len(),
    ensures
        subsequence_match(q.take(i + 1), c.take(j + 1)) <==> (j > 0 && subsequence_match(
            q.take(i + 1),
            c.take(j),
        )) || (folds_equal(q[i], c[j]) && (i == 0 || (j > 0 && subsequence_match(
            q.take(i),
            c.take(j),
        )))),
{
    let qi = q.take(i + 1);
    let cj = c.take(j + 1);
    if subsequence_match(qi, cj) {
        let pos = choose|pos: Seq<int>| is_alignment(qi, cj, pos);
        assert(0 <= pos[i] < cj.len());
        if pos[i] < j {
            assert forall|k: int| 0 <= k < pos.len() implies 0 <= #[trigger] pos[k] < c.take(
                j,
            ).len() && folds_equal(qi[k], c.take(j)[pos[k]]) by {
                if k < i {
                    assert(pos[k] < pos[i]);
                }
                assert(cj[pos[k]] == c.take(j)[pos[k]]);
            }
            assert(is_alignment(qi, c.take(j), pos));
        } else {
            assert(folds_equal(qi[i], cj[pos[i]]));
            if i > 0 {
                let rest = pos.take(i);
                assert(0 <= pos[i - 1] < pos[i]);
                assert forall|k: int| 0 <= k < rest.len() implies 0 <= #[trigger] rest[k]
                    < c.take(j).len() && folds_equal(q.take(i)[k], c.take(j)[rest[k]]) by {
                    assert(rest[k] == pos[k]);
                    assert(pos[k] < pos[i]);
                    assert(qi[k] == q.take(i)[k]);
                    assert(cj[pos[k]] == c.take(j)[pos[k]]);
                }
                assert(is_alignment(q.take(i), c.take(j), rest));
            }
        }
    }
    if j > 0 && subsequence_match(qi, c.take(j)) {
        let pos = choose|pos: Seq<int>| is_alignment(qi, c.take(j), pos);
        assert forall|k: int| 0 <= k < pos.len() implies 0 <= #[trigger] pos[k] < cj.len()
            && folds_equal(qi[k], cj[pos[k]]) by {
            assert(cj[pos[k]] == c.take(j)[pos[k]]);
        }
        assert(is_alignment(qi, cj, pos));
    }
    if folds_equal(q[i], c[j]) && i == 0 {
        assert(is_alignment(qi, cj, seq![j]));
    }
    if folds_equal(q[i], c[j]) && i > 0 && j > 0 && subsequence_match(q.take(i), c.take(j)) {
        let rest = choose|pos: Seq<int>| is_alignment(q.take(i), c.take(j), pos);
        let pos = rest.push(j);
        assert forall|k: int| 0 <= k < pos.len() implies 0 <= #[trigger] pos[k] < cj.len()
            && folds_equal(qi[k], cj[pos[k]]) by {
            if k < i {
                assert(pos[k] == rest[k]);
                assert(qi[k] == q.take(i)[k]);
                assert(cj[pos[k]] == c.take(j)[pos[k]]);
            }
        }
        assert forall|k: int, l: int| 0 <= k < l < pos.len() implies pos[k] < pos[l] by {
            assert(pos[k] == rest[k]);
            if l < i {
                assert(pos[l] == rest[l]);
            }
        }
        assert(is_alignment(qi, cj, pos));
    }
}

/// A cell of the grid holds a value exactly where the query letters up to
/// its row match within the candidate positions up to its column.
pub proof fn lemma_value_iff_match(q: Seq<char>, c: Seq<char>, i: int, j: int)
    requires
        0 <= i < q.len(),
        0 <= j < c.len(),
    ensures
        overall(q, c, i, j) is Some <==> subsequence_match(q.take(i + 1), c.take(j + 1)),
    decreases i + 1, j + 1,
{
    lemma_match_step(q, c, i, j);
    let carried = overall(q, c, i, j - 1);
    let diagonal = overall(q, c, i - 1, j - 1);
    if j > 0 {
        lemma_value_iff_match(q, c, i, j - 1);
        if i > 0 {
            lemma_value_iff_match(q, c, i - 1, j - 1);
        }
    }
    assert(carried is Some <==> j > 0 && subsequence_match(q.take(i + 1), c.take(j)));
    assert(ending(q, c, i - 1, j - 1) is Some ==> diagonal is Some);
    assert(diagonal is Some <==> i > 0 && j > 0 && subsequence_match(q.take(i), c.take(j)));
    if folds_equal(q[i], c[j]) {
        let matched = match_value(i, j, bonus_at(c, j), diagonal, ending(q, c, i - 1, j - 1));
        assert(matched is Some <==> i == 0 || (j > 0 && diagonal is Some));
        assert(overall(q, c, i, j) is Some <==> matched is Some || carried is Some);
    } else {
        assert(overall(q, c, i, j) is Some <==> carried is Some);
    }
}

/// Scoring and matching agree: where the sizes alone do not decide, a
/// candidate gets a score above the lowest exactly if it matches the query.
pub proof fn lemma_ranked_iff_match(q: Seq<char>, c: Seq<char>)
    requires
        0 < q.len(),
        q.len() != c.len(),
        c.len() <= CANDIDATE_MAX_CHARS,
        byte_len(c) <= CANDIDATE_MAX_BYTES,
    ensures
        score_of(q, c) != SCORE_MIN <==> subsequence_match(q, c),
{
    let i = q.len() - 1;
    let j = c.len() - 1;
    lemma_overall_bounds(q, c, i, j);
    if q.len() > c.len() {
        lemma_overall_needs_room(q, c, i, j);
        if subsequence_match(q, c) {
            lemma_match_is_no_longer(q, c);
        }
    } else {
        lemma_value_iff_match(q, c, i, j);
        assert(q.take(i + 1) == q);
        assert(c.take(j + 1) == c);
    }
}

/// A ranking names exactly the candidates that match the query.
pub proof fn lemma_ranking_names_the_matches<S: SearchItem>(
    out: Seq<Score>,
    q: Seq<char>,
    items: Seq<S>,
)
    requires
        is_ranking(out, q, items),
    ensures
        out.map_values(|s: Score| s.index as int).to_set() == Set::new(
            |i: int| 0 <= i < items.len() && subsequence_match(q, items[i].text()),
        ),
{
    let ids = out.map_values(|s: Score| s.index as int);
    let matches = Set::new(|i: int| 0 <= i < items.len() && subsequence_match(q, items[i].text()));
    assert forall|i: int| ids.to_set().contains(i) <==> matches.contains(i) by {
        if ids.to_set().contains(i) {
            let k = choose|k: int| 0 <= k < ids.len() && ids[k] == i;
            assert(crate::search::is_score_of(out[k], q, items));
        }
        if matches.contains(i) {
            let k = choose|k: int| 0 <= k < out.len() && #[trigger] out[k].index == i;
            assert(ids[k] == i);
            assert(ids.contains(i));
        }
    }
    assert(ids.to_set() =~= matches);
}

} // verus!
