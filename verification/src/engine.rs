use crate::bonus::{are_bonuses_of, candidate_match_bonuses};
use crate::classify::Metric;
use crate::matrix;
use crate::matrix::{grid_rows, has_shape, ScoreMatrix};
use crate::model::{as_score, bonus_at, ending, gap, match_value, overall, score_of, shift};
use crate::params::{
    CANDIDATE_MAX_CHARS, SCORE_GAP_INNER, SCORE_GAP_LEADING, SCORE_GAP_TRAILING,
    SCORE_MATCH_CONSECUTIVE, SCORE_MIN,
};
use crate::score::Score;
use crate::text::{fold_text, is_folding_of, same_chars};
use vstd::prelude::*;

verus! {

/// A value of the grid lies within what a candidate of at most
/// `CANDIDATE_MAX_CHARS` code points can reach.
pub open spec fn in_range(v: Option<int>) -> bool {
    v matches Some(x) ==> -10 * CANDIDATE_MAX_CHARS <= x <= 1000 * CANDIDATE_MAX_CHARS
}

/// A row of the grid holds no value before the column of its own number:
/// `i + 1` letters do not fit in fewer positions.
pub proof fn lemma_overall_needs_room(q: Seq<char>, c: Seq<char>, i: int, j: int)
    ensures
        overall(q, c, i, j) is Some ==> i <= j,
        ending(q, c, i, j) is Some ==> i <= j,
    decreases i + 1, j + 1,
{
    if 0 <= i < q.len() && 0 <= j < c.len() {
        lemma_overall_needs_room(q, c, i, j - 1);
        lemma_overall_needs_room(q, c, i - 1, j - 1);
    }
}

/// Every value of the grid is minus infinity or lies between ten times the
/// number of columns below zero and a thousand times the number of rows
/// above it.
pub proof fn lemma_overall_bounds(q: Seq<char>, c: Seq<char>, i: int, j: int)
    ensures
        overall(q, c, i, j) matches Some(x) ==> -10 * (j + 1) <= x <= 1000 * (i + 1),
        ending(q, c, i, j) matches Some(x) ==> -10 * (j + 1) <= x <= 1000 * (i + 1),
    decreases i + 1, j + 1,
{
    if 0 <= i < q.len() && 0 <= j < c.len() {
        lemma_overall_bounds(q, c, i, j - 1);
        lemma_overall_bounds(q, c, i - 1, j - 1);
    }
}

/// `v + d` where `v` may be minus infinity.
fn plus(v: i64, d: i64, Ghost(value): Ghost<Option<int>>) -> (r: i64)
    requires
        v == as_score(value),
        in_range(value),
        -1000 <= d <= 1000,
    ensures
        r == as_score(shift(value, d as int)),
{
    if v == SCORE_MIN {
        SCORE_MIN
    } else {
        v + d
    }
}

/// The two grids hold the values of the rows before `i`, and those of row
/// `i` before column `j`.
pub open spec fn filled_to(
    overall_grid: ScoreMatrix,
    ending_grid: ScoreMatrix,
    q: Seq<char>,
    c: Seq<char>,
    i: int,
    j: int,
) -> bool {
    &&& has_shape(overall_grid, q.len() as int, c.len() as int)
    &&& has_shape(ending_grid, q.len() as int, c.len() as int)
    &&& forall|a: int, b: int|
        0 <= a < q.len() && 0 <= b < c.len() && (a < i || (a == i && b < j)) ==> {
            &&& grid_rows(overall_grid)[a][b] == as_score(#[trigger] overall(q, c, a, b))
            &&& grid_rows(ending_grid)[a][b] == as_score(ending(q, c, a, b))
        }
}

/// Scores `candidate` for `query`, and labels the result with `index`.
///
/// The score says how well the candidate fits only where the candidate holds
/// the letters of the query in order, which `has_match` tells.
pub fn score(query: &str, candidate: &str, index: usize) -> (r: Score)
    ensures
        r.index == index,
        r.score == score_of(query@, candidate@),
{
    let (q_len, c_len) = match Metric::classify(query, candidate) {
        Metric::Score(s) => return Score::with_score(index, s),
        Metric::Lengths(q, c) => (q, c),
    };
    let ghost q = query@;
    let ghost c = candidate@;
    if q_len > c_len {
        // More letters than positions: no cell of the last column holds a value
        proof {
            lemma_overall_needs_room(q, c, q_len - 1, c_len - 1);
        }
        return Score::with_score(index, SCORE_MIN);
    }
    proof {
        assert(q_len * c_len <= 1024 * 1024) by (nonlinear_arith)
            requires
                0 <= q_len <= 1024,
                0 <= c_len <= 1024,
        ;
    }
    let match_bonuses = candidate_match_bonuses(candidate);
    let folded_query = fold_text(query);
    let folded_candidate = fold_text(candidate);

    // The best score of each pair of prefixes that ends in a match
    let mut best_score_w_ending = matrix::zeros(q_len, c_len);
    // The best score of each pair of prefixes
    let mut best_score_overall = matrix::zeros(q_len, c_len);

    for i in 0..q_len
        invariant
            q_len == q.len(),
            c_len == c.len(),
            0 < q_len <= c_len <= CANDIDATE_MAX_CHARS,
            are_bonuses_of(match_bonuses@, c),
            is_folding_of(folded_query@, q),
            is_folding_of(folded_candidate@, c),
            filled_to(best_score_overall, best_score_w_ending, q, c, i as int, 0),
    {
        let mut prev_score = SCORE_MIN;
        let gap_score = if i == q_len - 1 {
            SCORE_GAP_TRAILING
        } else {
            SCORE_GAP_INNER
        };

        for j in 0..c_len
            invariant
                0 <= i < q_len,
                q_len == q.len(),
                c_len == c.len(),
                0 < q_len <= c_len <= CANDIDATE_MAX_CHARS,
                gap_score == gap(q.len() as int, i as int),
                are_bonuses_of(match_bonuses@, c),
                is_folding_of(folded_query@, q),
                is_folding_of(folded_candidate@, c),
                filled_to(best_score_overall, best_score_w_ending, q, c, i as int, j as int),
                prev_score == as_score(overall(q, c, i as int, j - 1)),
        {
            let ghost before = overall(q, c, i as int, j - 1);
            let ghost diagonal = overall(q, c, i - 1, j - 1);
            let ghost diagonal_ending = ending(q, c, i - 1, j - 1);
            proof {
                lemma_overall_bounds(q, c, i as int, j - 1);
                lemma_overall_bounds(q, c, i - 1, j - 1);
                lemma_overall_bounds(q, c, i as int, j as int);
            }
            let carried = plus(prev_score, gap_score, Ghost(before));
            if same_chars(&folded_query[i], &folded_candidate[j]) {
                // What matching these two positions is worth
                let score = if i == 0 {
                    // Start of the query: the skipped positions are a leading gap
                    (j as i64) * SCORE_GAP_LEADING + match_bonuses[j]
                } else if j != 0 {
                    // Either the bonus of the place, or that of following a
                    // match directly; the two do not add up
                    let with_place = plus(
                        matrix::get(&best_score_overall, i - 1, j - 1),
                        match_bonuses[j],
                        Ghost(diagonal),
                    );
                    let with_run = plus(
                        matrix::get(&best_score_w_ending, i - 1, j - 1),
                        SCORE_MATCH_CONSECUTIVE,
                        Ghost(diagonal_ending),
                    );
                    if with_place >= with_run {
                        with_place
                    } else {
                        with_run
                    }
                } else {
                    SCORE_MIN
                };
                assert(score == as_score(
                    match_value(i as int, j as int, bonus_at(c, j as int), diagonal, diagonal_ending),
                ));
                prev_score = if score >= carried {
                    score
                } else {
                    carried
                };
                matrix::set(&mut best_score_overall, i, j, prev_score);
                matrix::set(&mut best_score_w_ending, i, j, prev_score);
            } else {
                // These positions do not match: one more skipped position
                prev_score = carried;
                matrix::set(&mut best_score_overall, i, j, prev_score);
                matrix::set(&mut best_score_w_ending, i, j, SCORE_MIN);
            }
            assert(prev_score == as_score(overall(q, c, i as int, j as int)));
        }
    }

    Score::with_score(index, matrix::get(&best_score_overall, q_len - 1, c_len - 1))
}

} // verus!
