//! Learning to rank: the ranking data model, ranking-quality metrics and the
//! decisions of a boosting learner, all in exact integer arithmetic.
//!
//! Every score, weight and feature value is a fixed-point quantity counted in
//! millionths: the integer [`UNIT`] stands for 1.0.
use vstd::prelude::*;

pub mod datapoint;
pub mod ensemble;
pub mod error;
pub mod eval;
pub mod ranker;
pub mod ranklist;
pub mod separation;

verus! {

/// The fixed-point representation of 1.0: quantities are counted in millionths.
pub const UNIT: u32 = 1_000_000;

/// A training or test corpus: one rank list per query.
pub type DataSet = Vec<ranklist::RankList>;

} // verus!
