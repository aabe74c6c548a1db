//! The failures that the library reports.
use vstd::prelude::*;

verus! {

/// Why an operation of the library did not produce a value.
#[derive(Debug, Clone, Copy, PartialEq, Eq, Structural)]
pub enum LtrError {
    /// A lookup into a rank list asked for a position outside `[0, len)`.
    IndexError,
    /// There is nothing to train on: the data set holds no rank list.
    EmptyDataSet,
    /// There is no candidate ranker to choose from.
    NoViableRanker,
    /// A quantity reached a value at which the next step is undefined: the
    /// chosen ranker's weighted metric is 1.0 or more, or every weight is 0.
    NumericSingularity,
    /// A confidence weight or a list weight lies outside the bounds that
    /// hold of the true value.
    OutOfRange,
    /// The learner was handed a step of a round out of turn.
    OutOfTurn,
    /// The learner was asked to go on after training had failed.
    TrainingFailed,
    /// The learner was asked to train after it had finished.
    AlreadyFitted,
    /// A prediction was requested before training finished.
    NotFitted,
}

} // verus!
