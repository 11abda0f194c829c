use crate::engine::lemma_overall_bounds;
use crate::laws::lemma_match_is_no_longer;
use crate::model::{
    bonus_at, byte_len, ending, gap, higher, is_alignment, match_value, overall, score_of, shift,
    subsequence_match,
};
use crate::params::{
    CANDIDATE_MAX_BYTES, CANDIDATE_MAX_CHARS, SCORE_GAP_INNER, SCORE_GAP_LEADING,
    SCORE_GAP_TRAILING, SCORE_MATCH_CONSECUTIVE,
};
use crate::text::folds_equal;
use vstd::prelude::*;

verus! {

/// What the match of letter `i` of `q` at position `p` of `c` earns. The
/// first letter pays for the positions before it and earns the bonus of its
/// place. A later letter earns the bonus of a run where the position before
/// it holds the letter before it, and the bonus of its place otherwise.
pub open spec fn letter_value(q: Seq<char>, c: Seq<char>, i: int, p: int) -> int {
    if i == 0 {
        p * SCORE_GAP_LEADING + bonus_at(c, p)
    } else if folds_equal(q[i - 1], c[p - 1]) {
        SCORE_MATCH_CONSECUTIVE as int
    } else {
        bonus_at(c, p)
    }
}

/// What `n` skipped positions after the match of letter `i` cost.
pub open spec fn skip_cost(q_len: int, i: int, n: int) -> int {
    if i == q_len - 1 {
        n * SCORE_GAP_TRAILING
    } else {
        n * SCORE_GAP_INNER
    }
}

/// The value of matching the letters of `q` up to letter `i` at the
/// positions that `pos` gives, counted up to position `j` of `c`.
pub open spec fn value_upto(q: Seq<char>, c: Seq<char>, pos: Seq<int>, i: int, j: int) -> int
    decreases i + 1,
{
    if i < 0 {
        0
    } else {
        value_upto(q, c, pos, i - 1, pos[i] - 1) + letter_value(q, c, i, pos[i]) + skip_cost(
            q.len() as int,
            i,
            j - pos[i],
        )
    }
}

/// The value of the alignment `pos` of all of `q` in all of `c`.
pub open spec fn alignment_score(q: Seq<char>, c: Seq<char>, pos: Seq<int>) -> int {
    value_upto(q, c, pos, q.len() - 1, c.len() - 1)
}

/// `pos` matches the letters of `q` up to letter `i` within the positions of
/// `c` up to `j`.
pub open spec fn aligns_upto(q: Seq<char>, c: Seq<char>, pos: Seq<int>, i: int, j: int) -> bool {
    &&& 0 <= i < q.len()
    &&& i < pos.len()
    &&& j < c.len()
    &&& forall|k: int|
        0 <= k <= i ==> 0 <= #[trigger] pos[k] <= j && folds_equal(q[k], c[pos[k]])
    &&& forall|k: int, l: int| 0 <= k < l <= i ==> pos[k] < pos[l]
}

/// The value up to letter `i` depends on the positions up to that letter
/// only.
proof fn lemma_value_of_prefix(
    q: Seq<char>,
    c: Seq<char>,
    pos: Seq<int>,
    other: Seq<int>,
    i: int,
    j: int,
)
    requires
        i < pos.len(),
        i < other.len(),
        forall|k: int| 0 <= k <= i ==> pos[k] == other[k],
    ensures
        value_upto(q, c, pos, i, j) == value_upto(q, c, other, i, j),
    decreases i + 1,
{
    if i >= 0 {
        lemma_value_of_prefix(q, c, pos, other, i - 1, pos[i] - 1);
    }
}

/// The grid's value at row `i`, column `j` is at least the value of every
/// way to match the letters up to `i` within the positions up to `j`.
proof fn lemma_cell_bounds_alignments(q: Seq<char>, c: Seq<char>, pos: Seq<int>, i: int, j: int)
    requires
        aligns_upto(q, c, pos, i, j),
    ensures
        overall(q, c, i, j) matches Some(x) && x >= value_upto(q, c, pos, i, j),
    decreases i + 1, j + 1,
{
    assert(0 <= pos[i] <= j);
    let step = gap(q.len() as int, i);
    let carried = shift(overall(q, c, i, j - 1), step);
    assert(overall(q, c, i, j) == if folds_equal(q[i], c[j]) {
        higher(
            match_value(
                i,
                j,
                bonus_at(c, j),
                overall(q, c, i - 1, j - 1),
                ending(q, c, i - 1, j - 1),
            ),
            carried,
        )
    } else {
        carried
    });
    if pos[i] < j {
        assert(aligns_upto(q, c, pos, i, j - 1));
        lemma_cell_bounds_alignments(q, c, pos, i, j - 1);
        assert(skip_cost(q.len() as int, i, j - pos[i]) == skip_cost(
            q.len() as int,
            i,
            j - 1 - pos[i],
        ) + step);
        assert(value_upto(q, c, pos, i, j) == value_upto(q, c, pos, i, j - 1) + step);
        assert(carried matches Some(y) && y >= value_upto(q, c, pos, i, j));
    } else if i > 0 {
        assert(pos[i - 1] < pos[i]);
        assert(aligns_upto(q, c, pos, i - 1, j - 1)) by {
            assert forall|k: int| 0 <= k <= i - 1 implies 0 <= #[trigger] pos[k] <= j - 1
                && folds_equal(q[k], c[pos[k]]) by {
                assert(pos[k] < pos[i]);
            }
        }
        lemma_cell_bounds_alignments(q, c, pos, i - 1, j - 1);
        assert(folds_equal(q[i], c[j]));
        assert(skip_cost(q.len() as int, i, 0) == 0);
        let diagonal = overall(q, c, i - 1, j - 1);
        assert(ending(q, c, i - 1, j - 1) == if folds_equal(q[i - 1], c[j - 1]) {
            diagonal
        } else {
            None
        });
        assert(value_upto(q, c, pos, i, j) == value_upto(q, c, pos, i - 1, j - 1) + letter_value(
            q,
            c,
            i,
            j,
        ));
    } else {
        assert(folds_equal(q[i], c[j]));
        assert(skip_cost(q.len() as int, i, 0) == 0);
        assert(value_upto(q, c, pos, -1, j - 1) == 0);
        assert(value_upto(q, c, pos, i, j) == letter_value(q, c, i, j));
    }
}

/// The grid's value at row `i`, column `j` is the value of some way to match
/// the letters up to `i` within the positions up to `j`.
proof fn lemma_cell_is_of_an_alignment(q: Seq<char>, c: Seq<char>, i: int, j: int) -> (pos: Seq<
    int,
>)
    requires
        0 <= i < q.len(),
        0 <= j < c.len(),
        overall(q, c, i, j) is Some,
    ensures
        pos.len() == i + 1,
        aligns_upto(q, c, pos, i, j),
        overall(q, c, i, j) == Some(value_upto(q, c, pos, i, j)),
    decreases i + 1, j + 1,
{
    let step = gap(q.len() as int, i);
    let carried = shift(overall(q, c, i, j - 1), step);
    let diagonal = overall(q, c, i - 1, j - 1);
    let matched = match_value(i, j, bonus_at(c, j), diagonal, ending(q, c, i - 1, j - 1));
    assert(overall(q, c, i, j) == if folds_equal(q[i], c[j]) {
        higher(matched, carried)
    } else {
        carried
    });
    if overall(q, c, i, j) == carried {
        let pos = lemma_cell_is_of_an_alignment(q, c, i, j - 1);
        assert(skip_cost(q.len() as int, i, j - pos[i]) == skip_cost(
            q.len() as int,
            i,
            j - 1 - pos[i],
        ) + step);
        assert(value_upto(q, c, pos, i, j) == value_upto(q, c, pos, i, j - 1) + step);
        pos
    } else if i == 0 {
        let pos = seq![j];
        assert(skip_cost(q.len() as int, i, 0) == 0);
        assert(value_upto(q, c, pos, -1, j - 1) == 0);
        assert(value_upto(q, c, pos, i, j) == letter_value(q, c, i, j));
        pos
    } else {
        assert(overall(q, c, i, j) == matched);
        assert(ending(q, c, i - 1, j - 1) == if folds_equal(q[i - 1], c[j - 1]) {
            diagonal
        } else {
            None
        });
        let before = lemma_cell_is_of_an_alignment(q, c, i - 1, j - 1);
        let pos = before.push(j);
        lemma_value_of_prefix(q, c, pos, before, i - 1, j - 1);
        assert forall|k: int| 0 <= k <= i implies 0 <= #[trigger] pos[k] <= j && folds_equal(
            q[k],
            c[pos[k]],
        ) by {
            if k < i {
                assert(pos[k] == before[k]);
            }
        }
        assert forall|k: int, l: int| 0 <= k < l <= i implies pos[k] < pos[l] by {
            assert(pos[k] == before[k]);
            if l < i {
                assert(pos[l] == before[l]);
            }
        }
        assert(skip_cost(q.len() as int, i, 0) == 0);
        assert(value_upto(q, c, pos, i, j) == value_upto(q, c, pos, i - 1, j - 1) + letter_value(
            q,
            c,
            i,
            j,
        ));
        pos
    }
}

/// No way to match the query in the candidate is worth more than the
/// candidate's score.
pub proof fn lemma_score_bounds_every_alignment(q: Seq<char>, c: Seq<char>, pos: Seq<int>)
    requires
        q.len() != c.len(),
        c.len() <= CANDIDATE_MAX_CHARS,
        byte_len(c) <= CANDIDATE_MAX_BYTES,
        0 < q.len(),
        is_alignment(q, c, pos),
    ensures
        alignment_score(q, c, pos) <= score_of(q, c),
{
    lemma_match_is_no_longer(q, c);
    assert(aligns_upto(q, c, pos, q.len() - 1, c.len() - 1));
    lemma_cell_bounds_alignments(q, c, pos, q.len() - 1, c.len() - 1);
}

/// The score of a candidate that matches the query is the value of one way
/// to match the query in it.
pub proof fn lemma_score_is_of_an_alignment(q: Seq<char>, c: Seq<char>) -> (pos: Seq<int>)
    requires
        q.len() != c.len(),
        c.len() <= CANDIDATE_MAX_CHARS,
        byte_len(c) <= CANDIDATE_MAX_BYTES,
        0 < q.len(),
        subsequence_match(q, c),
    ensures
        is_alignment(q, c, pos),
        alignment_score(q, c, pos) == score_of(q, c),
{
    lemma_match_is_no_longer(q, c);
    let witness = choose|pos: Seq<int>| is_alignment(q, c, pos);
    assert(aligns_upto(q, c, witness, q.len() - 1, c.len() - 1));
    lemma_cell_bounds_alignments(q, c, witness, q.len() - 1, c.len() - 1);
    lemma_overall_bounds(q, c, q.len() - 1, c.len() - 1);
    lemma_cell_is_of_an_alignment(q, c, q.len() - 1, c.len() - 1)
}

} // verus!
