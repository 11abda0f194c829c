use crate::params::{
    CANDIDATE_MAX_BYTES, CANDIDATE_MAX_CHARS, SCORE_GAP_INNER, SCORE_GAP_LEADING,
    SCORE_GAP_TRAILING, SCORE_MATCH_CAPITAL, SCORE_MATCH_CONSECUTIVE, SCORE_MATCH_DOT,
    SCORE_MATCH_SLASH, SCORE_MATCH_WORD, SCORE_MAX, SCORE_MIN,
};
use crate::text::{folds_equal, lowercase_letter, uppercase_letter};
use vstd::prelude::*;

verus! {

/// `pos` matches every position of `q` to a position of `c` that holds the
/// same letter, and later query positions to later candidate positions.
pub open spec fn is_alignment(q: Seq<char>, c: Seq<char>, pos: Seq<int>) -> bool {
    &&& pos.len() == q.len()
    &&& forall|k: int|
        0 <= k < pos.len() ==> 0 <= #[trigger] pos[k] < c.len() && folds_equal(q[k], c[pos[k]])
    &&& forall|k: int, l: int| 0 <= k < l < pos.len() ==> pos[k] < pos[l]
}

/// The letters of `q` occur in `c` in the same order, not necessarily next to
/// each other, and whatever their case.
pub open spec fn subsequence_match(q: Seq<char>, c: Seq<char>) -> bool {
    exists|pos: Seq<int>| is_alignment(q, c, pos)
}

/// A space, a hyphen or an underscore.
pub open spec fn separator(ch: char) -> bool {
    ch == ' ' || ch == '-' || ch == '_'
}

/// What a match on `current` earns for its place, given the code point before
/// it. The first rule that applies decides.
pub open spec fn bonus(current: char, previous: char) -> int {
    if uppercase_letter(current) && lowercase_letter(previous) {
        SCORE_MATCH_CAPITAL as int
    } else if previous == '/' {
        SCORE_MATCH_SLASH as int
    } else if previous == '.' {
        SCORE_MATCH_DOT as int
    } else if separator(previous) {
        SCORE_MATCH_WORD as int
    } else {
        0
    }
}

/// The bonus of position `j` of `c`. The first position counts as if a `/`
/// stood before it.
pub open spec fn bonus_at(c: Seq<char>, j: int) -> int {
    bonus(
        c[j],
        if j == 0 {
            '/'
        } else {
            c[j - 1]
        },
    )
}

/// What skipping one candidate position costs in row `i` of a query of
/// `q_len` code points.
pub open spec fn gap(q_len: int, i: int) -> int {
    if i == q_len - 1 {
        SCORE_GAP_TRAILING as int
    } else {
        SCORE_GAP_INNER as int
    }
}

/// `v` plus `d`, where `None` stands for minus infinity.
pub open spec fn shift(v: Option<int>, d: int) -> Option<int> {
    match v {
        Some(x) => Some(x + d),
        None => None,
    }
}

/// The larger of two values, where `None` stands for minus infinity.
pub open spec fn higher(a: Option<int>, b: Option<int>) -> Option<int> {
    match (a, b) {
        (None, _) => b,
        (_, None) => a,
        (Some(x), Some(y)) => if x >= y {
            a
        } else {
            b
        },
    }
}

/// What matching query position `i` to candidate position `j` is worth, given
/// the two cells diagonally before it.
pub open spec fn match_value(
    i: int,
    j: int,
    place: int,
    before_overall: Option<int>,
    before_ending: Option<int>,
) -> Option<int> {
    if i == 0 {
        Some(j * SCORE_GAP_LEADING + place)
    } else if j == 0 {
        None
    } else {
        higher(shift(before_overall, place), shift(before_ending, SCORE_MATCH_CONSECUTIVE as int))
    }
}

/// The best score of the first `i + 1` code points of `q` against the first
/// `j + 1` code points of `c`; `None` where there is none. Outside the grid
/// it is `None`.
pub open spec fn overall(q: Seq<char>, c: Seq<char>, i: int, j: int) -> Option<int>
    decreases i + 1, j + 1, 0int,
{
    if !(0 <= i < q.len() && 0 <= j < c.len()) {
        None
    } else {
        let carried = shift(overall(q, c, i, j - 1), gap(q.len() as int, i));
        if folds_equal(q[i], c[j]) {
            higher(
                match_value(
                    i,
                    j,
                    bonus_at(c, j),
                    overall(q, c, i - 1, j - 1),
                    ending(q, c, i - 1, j - 1),
                ),
                carried,
            )
        } else {
            carried
        }
    }
}

/// The same where position `j` of `c` is the match of position `i` of `q`;
/// `None` where the two do not hold the same letter.
pub open spec fn ending(q: Seq<char>, c: Seq<char>, i: int, j: int) -> Option<int>
    decreases i + 1, j + 1, 1int,
{
    if !(0 <= i < q.len() && 0 <= j < c.len()) {
        None
    } else if folds_equal(q[i], c[j]) {
        overall(q, c, i, j)
    } else {
        None
    }
}

/// A value as a score: minus infinity is `SCORE_MIN`.
pub open spec fn as_score(v: Option<int>) -> int {
    match v {
        Some(x) => x,
        None => SCORE_MIN as int,
    }
}

/// The number of bytes of `c` in UTF-8.
pub open spec fn byte_len(c: Seq<char>) -> nat {
    vstd::utf8::encode_utf8(c).len()
}

/// The score of candidate `c` for query `q`.
pub open spec fn score_of(q: Seq<char>, c: Seq<char>) -> int {
    if byte_len(c) > CANDIDATE_MAX_BYTES || q.len() == 0 {
        SCORE_MIN as int
    } else if q.len() == c.len() {
        SCORE_MAX as int
    } else if c.len() > CANDIDATE_MAX_CHARS {
        SCORE_MIN as int
    } else {
        as_score(overall(q, c, q.len() - 1, c.len() - 1))
    }
}

} // verus!
