use crate::model::{bonus, bonus_at, separator};
use crate::params::{SCORE_MATCH_CAPITAL, SCORE_MATCH_DOT, SCORE_MATCH_SLASH, SCORE_MATCH_WORD};
use vstd::prelude::*;

verus! {

/// Whether `character` separates words: a space, a hyphen or an underscore.
pub fn is_separator(character: char) -> (r: bool)
    ensures
        r == separator(character),
{
    character == ' ' || character == '-' || character == '_'
}

/// The bonus of a match on `current` when `previous` stands before it.
pub fn character_match_bonus(current: char, previous: char) -> (r: i64)
    ensures
        r == bonus(current, previous),
{
    if current.is_uppercase() && previous.is_lowercase() {
        return SCORE_MATCH_CAPITAL;
    }
    if previous == '/' {
        SCORE_MATCH_SLASH
    } else if previous == '.' {
        SCORE_MATCH_DOT
    } else if is_separator(previous) {
        SCORE_MATCH_WORD
    } else {
        0
    }
}

/// `bonuses` holds the bonus of every position of `c`, in order.
pub open spec fn are_bonuses_of(bonuses: Seq<i64>, c: Seq<char>) -> bool {
    &&& bonuses.len() == c.len()
    &&& forall|j: int| 0 <= j < c.len() ==> #[trigger] bonuses[j] == bonus_at(c, j)
}

/// The bonus of every position of `candidate`, in order.
pub fn candidate_match_bonuses(candidate: &str) -> (r: Vec<i64>)
    ensures
        are_bonuses_of(r@, candidate@),
{
    let mut out: Vec<i64> = Vec::new();
    let mut prev_char = '/';
    for current in it: candidate.chars()
        invariant
            it.seq() == candidate@,
            out@.len() == it.index(),
            prev_char == if it.index() == 0 {
                '/'
            } else {
                candidate@[it.index() - 1]
            },
            forall|j: int| 0 <= j < out@.len() ==> #[trigger] out@[j] == bonus_at(candidate@, j),
    {
        out.push(character_match_bonus(current, prev_char));
        prev_char = current;
    }
    out
}

} // verus!
