use vstd::prelude::*;

verus! {

// Scores are counted in thousandths of a point, so that every weight below is
// a whole number and sums of them are exact.

/// The score of a pair that is not ranked at all. It is below every other
/// score, and adding to it leaves it unchanged.
pub const SCORE_MIN: i64 = i64::MIN;

/// The score of a candidate that is the query itself. It is above every other
/// score.
pub const SCORE_MAX: i64 = i64::MAX;

/// Charged for each candidate position skipped before the first match.
pub const SCORE_GAP_LEADING: i64 = -5;

/// Charged for each candidate position skipped between two matches.
pub const SCORE_GAP_INNER: i64 = -10;

/// Charged for each candidate position skipped after the last match.
pub const SCORE_GAP_TRAILING: i64 = -5;

/// Earned by a match that directly follows the previous match.
pub const SCORE_MATCH_CONSECUTIVE: i64 = 1000;

/// Earned by a match right after a `/`.
pub const SCORE_MATCH_SLASH: i64 = 900;

/// Earned by a match right after a space, `-` or `_`.
pub const SCORE_MATCH_WORD: i64 = 800;

/// Earned by a match on an uppercase letter right after a lowercase one.
pub const SCORE_MATCH_CAPITAL: i64 = 700;

/// Earned by a match right after a `.`.
pub const SCORE_MATCH_DOT: i64 = 600;

/// Candidates of more bytes than this are not ranked.
pub const CANDIDATE_MAX_BYTES: usize = 2048;

/// Candidates of more code points than this are not ranked.
pub const CANDIDATE_MAX_CHARS: usize = 1024;

} // verus!
