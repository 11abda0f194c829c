use crate::model::byte_len;
use crate::params::{CANDIDATE_MAX_BYTES, CANDIDATE_MAX_CHARS, SCORE_MAX, SCORE_MIN};
use vstd::prelude::*;
use vstd::string::StrSliceExecFns;
use vstd::string::StringSliceAdditionalSpecFns;

verus! {

/// What a look at the sizes of a query and a candidate tells.
pub enum Metric {
    /// The pair has to be scored in full; the code points of the query and
    /// of the candidate are counted.
    Lengths(usize, usize),
    /// The sizes alone decide the score.
    Score(i64),
}

impl Metric {
    /// What `classify` answers for query `q` and candidate `c`.
    pub open spec fn of(q: Seq<char>, c: Seq<char>) -> Metric {
        if byte_len(c) > CANDIDATE_MAX_BYTES || q.len() == 0 {
            Metric::Score(SCORE_MIN)
        } else if q.len() == c.len() {
            Metric::Score(SCORE_MAX)
        } else if c.len() > CANDIDATE_MAX_CHARS {
            Metric::Score(SCORE_MIN)
        } else {
            Metric::Lengths(q.len() as usize, c.len() as usize)
        }
    }

    /// Decides from the sizes alone where that is possible: an empty query or
    /// too long a candidate is not ranked, and a candidate as long as the
    /// query is taken for the query itself.
    pub fn classify(query: &str, candidate: &str) -> (r: Metric)
        ensures
            r == Metric::of(query@, candidate@),
            r matches Metric::Lengths(q, c) ==> q == query@.len() && c == candidate@.len(),
    {
        if candidate.as_bytes().len() > CANDIDATE_MAX_BYTES || query.is_empty() {
            return Metric::Score(SCORE_MIN);
        }
        let q_len = query.unicode_len();
        let c_len = candidate.unicode_len();
        if q_len == c_len {
            return Metric::Score(SCORE_MAX);
        }
        if c_len > CANDIDATE_MAX_CHARS {
            return Metric::Score(SCORE_MIN);
        }
        Metric::Lengths(q_len, c_len)
    }
}

} // verus!
