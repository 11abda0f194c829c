use crate::params::SCORE_MIN;
use std::cmp::Ordering;
use vstd::prelude::*;

verus! {

/// The score of one candidate: its place in the list that was searched, and
/// how well it fits the query, in thousandths of a point.
#[derive(Copy, Clone, Debug)]
pub struct Score {
    pub index: usize,
    pub score: i64,
}

impl Score {
    /// The score of a candidate that is not ranked.
    pub fn new(index: usize) -> (r: Score)
        ensures
            r.index == index,
            r.score == SCORE_MIN,
    {
        Self::with_score(index, SCORE_MIN)
    }

    /// A candidate's place together with its score.
    pub fn with_score(index: usize, score: i64) -> (r: Score)
        ensures
            r.index == index,
            r.score == score,
    {
        Self { index, score }
    }
}

impl PartialEq for Score {
    /// Two scores are equal when they are worth the same, whatever candidate
    /// each belongs to.
    fn eq(&self, other: &Self) -> (r: bool) {
        self.score == other.score
    }
}

impl Eq for Score {

}

impl vstd::std_specs::cmp::PartialEqSpecImpl for Score {
    open spec fn obeys_eq_spec() -> bool {
        true
    }

    open spec fn eq_spec(&self, other: &Self) -> bool {
        self.score == other.score
    }
}

impl PartialOrd for Score {
    /// Orders scores best first: the higher score is the lesser element.
    fn partial_cmp(&self, other: &Self) -> (r: Option<Ordering>) {
        if self.score > other.score {
            Some(Ordering::Less)
        } else if self.score < other.score {
            Some(Ordering::Greater)
        } else {
            Some(Ordering::Equal)
        }
    }
}

impl vstd::std_specs::cmp::PartialOrdSpecImpl for Score {
    open spec fn obeys_partial_cmp_spec() -> bool {
        true
    }

    open spec fn partial_cmp_spec(&self, other: &Self) -> Option<Ordering> {
        if self.score > other.score {
            Some(Ordering::Less)
        } else if self.score < other.score {
            Some(Ordering::Greater)
        } else {
            Some(Ordering::Equal)
        }
    }
}

} // verus!
