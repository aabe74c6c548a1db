//! Ranking-quality metrics.
use vstd::prelude::*;
use crate::ranklist::{PermutationView, RankListPermutation};

pub mod map;

verus! {

/// A ranking-quality metric: it scores one candidate ranking of one list with
/// a value between 0 and [`crate::UNIT`], in millionths.
pub trait Evaluator {
    /// The score the metric assigns to a ranking.
    spec fn score(&self, perm: PermutationView) -> nat;

    /// Every score lies between 0 and 1.0.
    proof fn score_is_bounded(&self, perm: PermutationView)
        ensures
            self.score(perm) <= crate::UNIT,
    ;

    /// Computes the score of `perm`. The result is a function of the ranking
    /// alone: equal rankings get equal scores.
    fn evaluate_ranklist(&self, perm: &RankListPermutation) -> (score: u32)
        ensures
            score == self.score(perm@),
            score <= crate::UNIT,
    ;
}

} // verus!
