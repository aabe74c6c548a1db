//! AdaRank: boosting of weak rankers against a ranking metric.
//!
//! The learner takes every decision of a training round: which weak ranker
//! is chosen, whether its weighted metric admits a confidence weight, when
//! training ends. The two transcendental steps of a round, the confidence
//! weight of the chosen ranker and the new weight of each list, are computed
//! by the caller and handed in; the learner holds them against integer
//! bounds that the true values obey, and refuses what lies outside.
//!
//! A round is three steps, taken in turn: `select` chooses the weak ranker,
//! `accept` takes its confidence weight and completes the round, and, unless
//! training has finished, `reweight` takes the lists' new weights.
use vstd::prelude::*;
use crate::datapoint::{DataPoint, DataPointView};
use crate::ensemble::{Ensemble, Member};
use crate::error::LtrError;
use crate::eval::Evaluator;
use crate::ranker::{rank_list, ranking_by, Ranker, WeakRanker};
use crate::ranklist::{PermutationView, RankList};
use crate::{DataSet, UNIT};

verus! {

/// Where a learner stands.
#[derive(Debug, Clone, Copy, PartialEq, Eq, Structural)]
pub enum Phase {
    /// No round has been completed.
    Uninitialized,
    /// At least one round has been completed and more may follow.
    Training,
    /// Fitted: the overall metric stopped improving.
    Converged,
    /// Fitted: the configured number of rounds has been completed.
    MaxRoundsReached,
    /// Training met a fatal condition and cannot go on.
    Failed,
}

impl Phase {
    /// Whether a round may be started or completed in this phase.
    pub open spec fn trainable(self) -> bool {
        self == Phase::Uninitialized || self == Phase::Training
    }

    /// Whether training has finished with a model.
    pub open spec fn fitted(self) -> bool {
        self == Phase::Converged || self == Phase::MaxRoundsReached
    }
}

/// The weak ranker chosen for a round.
#[derive(Debug, Clone, Copy, PartialEq, Eq, Structural)]
pub struct Selection {
    /// Its position in the pool.
    pub ranker: usize,
    /// Its weighted metric over the data set, in millionths.
    pub metric: u32,
}

/// What follows a completed round.
#[derive(Debug, Clone, Copy, PartialEq, Eq, Structural)]
pub enum Progress {
    /// Another round follows, after the weights have been renewed.
    Continue,
    /// Training has finished.
    Finished,
}

/// The step of a round that the learner expects next.
#[derive(Debug, Clone, Copy, PartialEq, Eq, Structural)]
pub enum Step {
    /// The choice of a weak ranker.
    Select,
    /// The confidence weight of the ranker that was chosen.
    Confidence(Selection),
    /// The new weights of the lists.
    Weights,
}

/// Whether `alpha` may be the confidence weight of a ranker whose weighted
/// metric is `r`, both in millionths. The weight is half the logarithm of
/// `(1 + r) / (1 - r)`, which lies between `r / (1 + r)` and `r / (1 - r)`;
/// the bounds are widened to whole millionths.
pub open spec fn admits_confidence(r: nat, alpha: int) -> bool {
    &&& r < UNIT
    &&& (r * UNIT) / (UNIT + r) <= alpha
    &&& alpha <= (r * UNIT) / (UNIT - r) + 1
}

/// Whether `weight` may be the new weight of a list on which the ensemble
/// reaches the metric `m`, both in millionths. The weight is the exponential
/// of `-m`, which lies between `1 - m` and `1 / (1 + m)`; the bounds are
/// widened to whole millionths.
pub open spec fn admits_weight(m: nat, weight: nat) -> bool {
    &&& UNIT - m <= weight
    &&& weight <= (UNIT * UNIT) / (UNIT + m) + 1
}

/// The score that `evaluator` gives a list when `ranker` orders it.
pub open spec fn list_metric<E: Evaluator, R: Ranker>(
    evaluator: &E,
    ranker: &R,
    docs: Seq<DataPointView>,
) -> nat {
    evaluator.score((PermutationView { docs, order: ranking_by(ranker, docs) }))
}

/// The sum of the first `n` weights.
pub open spec fn weight_total(weights: Seq<u32>, n: nat) -> nat
    decreases n,
{
    if n == 0 {
        0
    } else {
        weight_total(weights, (n - 1) as nat) + weights[n - 1] as nat
    }
}

/// The sum of `weight * metric` over the first `n` lists.
pub open spec fn weighted_total<E: Evaluator, R: Ranker>(
    evaluator: &E,
    ranker: &R,
    data: Seq<Seq<DataPointView>>,
    weights: Seq<u32>,
    n: nat,
) -> nat
    decreases n,
{
    if n == 0 {
        0
    } else {
        weighted_total(evaluator, ranker, data, weights, (n - 1) as nat) + weights[n - 1] as nat
            * list_metric(evaluator, ranker, data[n - 1])
    }
}

/// The weighted average of a ranker's metric over the data set, each list
/// counting by its share of the total weight; rounded down, and 0 where the
/// total weight is 0.
pub open spec fn weighted_metric<E: Evaluator, R: Ranker>(
    evaluator: &E,
    ranker: &R,
    data: Seq<Seq<DataPointView>>,
    weights: Seq<u32>,
) -> nat {
    let total = weight_total(weights, data.len());
    if total == 0 {
        0
    } else {
        weighted_total(evaluator, ranker, data, weights, data.len()) / total
    }
}

/// A weighted total is at most the total weight times 1.0, and the total
/// weight of `n` lists at most `n` times the largest weight.
pub proof fn lemma_weighted_total_bounds<E: Evaluator, R: Ranker>(
    evaluator: &E,
    ranker: &R,
    data: Seq<Seq<DataPointView>>,
    weights: Seq<u32>,
    n: nat,
)
    ensures
        weighted_total(evaluator, ranker, data, weights, n) <= weight_total(weights, n) * UNIT,
        weight_total(weights, n) <= n * u32::MAX,
    decreases n,
{
    if n > 0 {
        lemma_weighted_total_bounds(evaluator, ranker, data, weights, (n - 1) as nat);
        let w = weights[n - 1] as nat;
        let m = list_metric(evaluator, ranker, data[n - 1]);
        evaluator.score_is_bounded(
            (PermutationView { docs: data[n - 1], order: ranking_by(ranker, data[n - 1]) }),
        );
        let before = weight_total(weights, (n - 1) as nat);
        assert(w * m <= w * UNIT) by (nonlinear_arith)
            requires
                m <= UNIT,
        ;
        assert((before + w) * UNIT == before * UNIT + w * UNIT) by (nonlinear_arith);
        assert(n * u32::MAX == (n - 1) * u32::MAX + u32::MAX) by (nonlinear_arith);
    }
}

/// A weighted metric lies between 0 and 1.0.
pub proof fn lemma_weighted_metric_bounded<E: Evaluator, R: Ranker>(
    evaluator: &E,
    ranker: &R,
    data: Seq<Seq<DataPointView>>,
    weights: Seq<u32>,
)
    ensures
        weighted_metric(evaluator, ranker, data, weights) <= UNIT,
{
    lemma_weighted_total_bounds(evaluator, ranker, data, weights, data.len());
    let total = weight_total(weights, data.len());
    let sum = weighted_total(evaluator, ranker, data, weights, data.len());
    if total > 0 {
        assert(sum / total <= UNIT) by (nonlinear_arith)
            requires
                sum <= total * UNIT,
                total > 0,
        ;
    }
}

/// Whether the overall metric has stopped improving: at least `min_rounds`
/// rounds, and at least two, are completed, and the last round changed the
/// metric by less than `tolerance`.
pub open spec fn plateaued(history: Seq<u32>, min_rounds: nat, tolerance: nat) -> bool {
    let t = history.len() as int;
    &&& t >= 2
    &&& t >= min_rounds
    &&& history[t - 1] - history[t - 2] < tolerance
    &&& history[t - 2] - history[t - 1] < tolerance
}

/// What an [`AdaRank`] learner is, as mathematical values.
pub struct AdaRankView<E> {
    /// The metric that training maximises.
    pub evaluator: E,
    /// The training lists.
    pub data: Seq<Seq<DataPointView>>,
    /// The weight of each list. A list's share of the total is its weight
    /// in the distribution.
    pub weights: Seq<u32>,
    /// The candidate weak rankers.
    pub pool: Seq<WeakRanker>,
    /// The model built so far.
    pub ensemble: Ensemble,
    /// The overall weighted metric after each completed round.
    pub history: Seq<u32>,
    /// Where the learner stands.
    pub phase: Phase,
    /// The step of a round that comes next.
    pub step: Step,
    /// The most rounds that training may run.
    pub max_rounds: nat,
    /// The fewest rounds before training may end early.
    pub min_rounds: nat,
    /// The change of the overall metric below which training ends early.
    pub tolerance: nat,
}

impl<E: Evaluator> AdaRankView<E> {
    /// The weighted metric of candidate `k` of the pool.
    pub open spec fn candidate_metric(self, k: int) -> nat {
        weighted_metric(&self.evaluator, &self.pool[k], self.data, self.weights)
    }

    /// Whether candidate `b` has the highest weighted metric of the pool, and
    /// is the first to have it.
    pub open spec fn is_best(self, b: int) -> bool {
        &&& 0 <= b < self.pool.len()
        &&& forall|k: int|
            0 <= k < self.pool.len() ==> #[trigger] self.candidate_metric(k)
                <= self.candidate_metric(b)
        &&& forall|k: int|
            0 <= k < b ==> #[trigger] self.candidate_metric(k) < self.candidate_metric(b)
    }

    /// Whether `chosen` is the choice of a round in this state: the best
    /// candidate of the pool, with its weighted metric, which is below 1.0.
    pub open spec fn is_choice(self, chosen: Selection) -> bool {
        &&& self.is_best(chosen.ranker as int)
        &&& chosen.metric == self.candidate_metric(chosen.ranker as int)
        &&& chosen.metric < UNIT
    }

    /// The invariant of a learner: one weight per list, one history entry
    /// and one member per completed round, never more rounds than allowed,
    /// a phase that agrees with the number of rounds, and a step that agrees
    /// with the phase. A ranker that awaits its confidence weight is the
    /// choice of the round.
    pub open spec fn well_formed(self) -> bool {
        &&& self.weights.len() == self.data.len()
        &&& self.history.len() == self.ensemble@.len()
        &&& self.ensemble@.len() <= self.max_rounds <= u32::MAX
        &&& self.phase == Phase::Uninitialized ==> self.ensemble@.len() == 0
        &&& self.phase.trainable() ==> self.ensemble@.len() < self.max_rounds
        &&& self.phase == Phase::MaxRoundsReached ==> self.ensemble@.len() == self.max_rounds
        &&& !self.phase.trainable() ==> self.step == Step::Select
        &&& self.step == Step::Weights ==> self.phase == Phase::Training
        &&& match self.step {
            Step::Confidence(chosen) => self.data.len() > 0 && self.is_choice(chosen),
            _ => true,
        }
    }

    /// The ensemble's metric on list `i`.
    pub open spec fn ensemble_metric(self, i: int) -> nat {
        list_metric(&self.evaluator, &self.ensemble, self.data[i])
    }

    /// Whether `weights` may replace the current weights: one for each
    /// list, each within the bounds of the list's metric.
    pub open spec fn admits_weights(self, weights: Seq<u32>) -> bool {
        &&& weights.len() == self.data.len()
        &&& forall|i: int|
            0 <= i < weights.len() ==> admits_weight(
                #[trigger] self.ensemble_metric(i),
                weights[i] as nat,
            )
    }

    /// The state after a round that leaves the ensemble `grown` and ends at
    /// the overall metric `overall`: training has finished where the round
    /// limit is reached or the metric has stopped improving, and goes on
    /// with new weights otherwise.
    pub open spec fn after_round(self, grown: Ensemble, overall: u32) -> AdaRankView<E> {
        let history = self.history.push(overall);
        let phase = if grown@.len() == self.max_rounds {
            Phase::MaxRoundsReached
        } else if plateaued(history, self.min_rounds, self.tolerance) {
            Phase::Converged
        } else {
            Phase::Training
        };
        AdaRankView {
            ensemble: grown,
            history,
            phase,
            step: if phase == Phase::Training {
                Step::Weights
            } else {
                Step::Select
            },
            ..self
        }
    }
}

/// The AdaRank learner.
pub struct AdaRank<E: Evaluator> {
    dataset: Vec<RankList>,
    evaluator: E,
    max_rounds: u32,
    min_rounds: u32,
    tolerance: u32,
    pool: Vec<WeakRanker>,
    weights: Vec<u32>,
    ensemble: Ensemble,
    history: Vec<u32>,
    phase: Phase,
    step: Step,
}

impl<E: Evaluator> View for AdaRank<E> {
    type V = AdaRankView<E>;

    closed spec fn view(&self) -> AdaRankView<E> {
        AdaRankView {
            evaluator: self.evaluator,
            data: self.dataset@.map_values(|list: RankList| list@),
            weights: self.weights@,
            pool: self.pool@,
            ensemble: self.ensemble,
            history: self.history@,
            phase: self.phase,
            step: self.step,
            max_rounds: self.max_rounds as nat,
            min_rounds: self.min_rounds as nat,
            tolerance: self.tolerance as nat,
        }
    }
}

/// A completed round keeps the learner's invariant: the ensemble and the
/// history grow by one entry each and stay within the round limit.
pub proof fn lemma_round_keeps_invariant<E: Evaluator>(
    state: AdaRankView<E>,
    grown: Ensemble,
    overall: u32,
)
    requires
        state.well_formed(),
        state.phase.trainable(),
        grown@.len() == state.ensemble@.len() + 1,
    ensures
        state.after_round(grown, overall).well_formed(),
        state.after_round(grown, overall).ensemble@.len() == state.ensemble@.len() + 1,
        state.after_round(grown, overall).ensemble@.len() <= state.max_rounds,
        state.after_round(grown, overall).phase != Phase::Failed,
        state.after_round(grown, overall).phase != Phase::Uninitialized,
{
}

/// In every state of a learner the number of completed rounds, which is the
/// length of its ensemble, is at most the configured maximum.
pub proof fn lemma_rounds_never_exceed_limit<E: Evaluator>(state: AdaRankView<E>)
    requires
        state.well_formed(),
    ensures
        state.ensemble@.len() <= state.max_rounds,
        state.history.len() <= state.max_rounds,
{
}

/// A metric admits a confidence weight only where it is strictly below
/// 1.0, and every weight that it admits is finite: it lies between 0 and
/// the metric's odds, `r / (1 - r)`, which no metric below 1.0 takes beyond
/// 1.0 a million times over.
pub proof fn lemma_confidence_is_bounded(r: nat, alpha: int)
    requires
        admits_confidence(r, alpha),
    ensures
        r < UNIT,
        0 <= alpha <= r * UNIT + 1,
        alpha <= (UNIT - 1) * UNIT + 1,
{
    let odds = (r * UNIT) / (UNIT - r);
    assert(odds <= r * UNIT) by (nonlinear_arith)
        requires
            odds == (r * UNIT) / (UNIT - r),
            UNIT - r >= 1,
    ;
    assert(0 <= (r * UNIT) / (UNIT + r)) by (nonlinear_arith)
        requires
            UNIT + r > 0,
    ;
    assert(r * UNIT <= (UNIT - 1) * UNIT) by (nonlinear_arith)
        requires
            r <= UNIT - 1,
    ;
}

/// Every weight that a metric admits is at most 1.0, up to rounding, and
/// more than 0 unless the metric is 1.0: only lists that the ensemble ranks
/// perfectly can lose all their weight.
pub proof fn lemma_weight_is_bounded(m: nat, weight: nat)
    requires
        m <= UNIT,
        admits_weight(m, weight),
    ensures
        weight <= UNIT + 1,
        m < UNIT ==> weight > 0,
{
    assert((UNIT * UNIT) / (UNIT + m) <= UNIT) by (nonlinear_arith)
        requires
            UNIT > 0,
            m >= 0,
    ;
}

/// Which candidate is the choice of a round depends on the metric, the
/// pool, the data and the weights, and on nothing else of the state.
pub proof fn lemma_choice_ignores_progress<E: Evaluator>(
    a: AdaRankView<E>,
    b: AdaRankView<E>,
    chosen: Selection,
)
    requires
        a.evaluator == b.evaluator,
        a.pool == b.pool,
        a.data == b.data,
        a.weights == b.weights,
        a.is_choice(chosen),
    ensures
        b.is_choice(chosen),
{
    assert forall|k: int| 0 <= k < b.pool.len() implies #[trigger] b.candidate_metric(k)
        <= b.candidate_metric(chosen.ranker as int) by {
        assert(a.candidate_metric(k) <= a.candidate_metric(chosen.ranker as int));
    }
    assert forall|k: int| 0 <= k < chosen.ranker implies #[trigger] b.candidate_metric(k)
        < b.candidate_metric(chosen.ranker as int) by {
        assert(a.candidate_metric(k) < a.candidate_metric(chosen.ranker as int));
    }
}

/// At most one candidate is the best of its pool: the choice of a round is
/// determined by the state.
pub proof fn lemma_best_is_unique<E: Evaluator>(state: AdaRankView<E>, a: int, b: int)
    requires
        state.is_best(a),
        state.is_best(b),
    ensures
        a == b,
{
    if a < b {
        assert(state.candidate_metric(a) < state.candidate_metric(b));
        assert(state.candidate_metric(b) <= state.candidate_metric(a));
    } else if b < a {
        assert(state.candidate_metric(b) < state.candidate_metric(a));
        assert(state.candidate_metric(a) <= state.candidate_metric(b));
    }
}

impl<E: Evaluator> AdaRank<E> {
    /// A learner that has completed no round: every list has the same
    /// weight and the ensemble is empty. With a limit of 0 rounds there is
    /// nothing to train, and the learner is fitted from the start.
    pub fn new(
        dataset: DataSet,
        evaluator: E,
        max_rounds: u32,
        min_rounds: u32,
        tolerance: u32,
        pool: Vec<WeakRanker>,
    ) -> (learner: AdaRank<E>)
        ensures
            learner@.well_formed(),
            learner@.evaluator == evaluator,
            learner@.data == dataset@.map_values(|list: RankList| list@),
            learner@.weights == Seq::new(dataset@.len(), |i: int| 1u32),
            learner@.pool == pool@,
            learner@.ensemble@ == Seq::<Member>::empty(),
            learner@.history == Seq::<u32>::empty(),
            learner@.phase == if max_rounds == 0 {
                Phase::MaxRoundsReached
            } else {
                Phase::Uninitialized
            },
            learner@.step == Step::Select,
            learner@.max_rounds == max_rounds,
            learner@.min_rounds == min_rounds,
            learner@.tolerance == tolerance,
    {
        let n = dataset.len();
        let mut weights: Vec<u32> = Vec::new();
        let mut i: usize = 0;
        while i < n
            invariant
                i <= n,
                weights@.len() == i,
                forall|p: int| 0 <= p < i ==> weights@[p] == 1u32,
            decreases n - i,
        {
            weights.push(1);
            i += 1;
        }
        assert(weights@ =~= Seq::new(dataset@.len(), |i: int| 1u32));
        let phase = if max_rounds == 0 {
            Phase::MaxRoundsReached
        } else {
            Phase::Uninitialized
        };
        AdaRank {
            dataset,
            evaluator,
            max_rounds,
            min_rounds,
            tolerance,
            pool,
            weights,
            ensemble: Ensemble::new(),
            history: Vec::new(),
            phase,
            step: Step::Select,
        }
    }

    /// Where the learner stands.
    pub fn phase(&self) -> (phase: Phase)
        ensures
            phase == self@.phase,
    {
        self.phase
    }

    /// The step of a round that the learner expects next.
    pub fn step(&self) -> (step: Step)
        ensures
            step == self@.step,
    {
        self.step
    }

    /// Whether training has finished with a model.
    pub fn is_fitted(&self) -> (fitted: bool)
        ensures
            fitted == self@.phase.fitted(),
    {
        self.phase == Phase::Converged || self.phase == Phase::MaxRoundsReached
    }

    /// The number of completed rounds.
    pub fn rounds(&self) -> (rounds: usize)
        ensures
            rounds == self@.ensemble@.len(),
    {
        self.ensemble.len()
    }

    /// The model built so far.
    pub fn ensemble(&self) -> (ensemble: &Ensemble)
        ensures
            *ensemble == self@.ensemble,
    {
        &self.ensemble
    }

    /// The overall weighted metric after each completed round.
    pub fn history(&self) -> (history: &Vec<u32>)
        ensures
            history@ == self@.history,
    {
        &self.history
    }

    /// The current weight of each list.
    pub fn weights(&self) -> (weights: &Vec<u32>)
        ensures
            weights@ == self@.weights,
    {
        &self.weights
    }

    /// The weighted average, over the data set, of the metric that `ranker`
    /// reaches on each list.
    pub fn weighted_metric<R: Ranker>(&self, ranker: &R) -> (metric: u32)
        requires
            self@.well_formed(),
        ensures
            metric == weighted_metric(&self@.evaluator, ranker, self@.data, self@.weights),
            metric <= UNIT,
    {
        let ghost data = self@.data;
        let ghost weights = self@.weights;
        let n = self.dataset.len();
        let mut sum: u128 = 0;
        let mut total: u128 = 0;
        let mut i: usize = 0;
        while i < n
            invariant
                i <= n,
                n == self.dataset@.len(),
                n == self.weights@.len(),
                data == self@.data,
                weights == self@.weights,
                sum == weighted_total(&self.evaluator, ranker, data, weights, i as nat),
                total == weight_total(weights, i as nat),
            decreases n - i,
        {
            proof {
                lemma_weighted_total_bounds(&self.evaluator, ranker, data, weights, (i + 1) as nat);
                let next = weight_total(weights, (i + 1) as nat);
                assert(next * UNIT <= 0x1_0000_0000_0000_0000 * 0xffff_ffff * 1_000_000)
                    by (nonlinear_arith)
                    requires
                        next <= (i + 1) * 0xffff_ffff,
                        i + 1 <= 0x1_0000_0000_0000_0000,
                        UNIT == 1_000_000,
                ;
            }
            let perm = rank_list(ranker, &self.dataset[i]);
            let score = self.evaluator.evaluate_ranklist(&perm);
            let weight = self.weights[i];
            assert(data[i as int] == self.dataset@[i as int]@);
            assert(score == list_metric(&self.evaluator, ranker, data[i as int]));
            sum = sum + weight as u128 * score as u128;
            total = total + weight as u128;
            i += 1;
        }
        proof {
            lemma_weighted_metric_bounded(&self.evaluator, ranker, data, weights);
        }
        if total == 0 {
            0
        } else {
            (sum / total) as u32
        }
    }

    /// The candidate with the highest weighted metric, the first of them
    /// where several reach it, and that metric.
    fn best_candidate(&self) -> (best: Selection)
        requires
            self@.well_formed(),
            self@.pool.len() > 0,
        ensures
            self@.is_best(best.ranker as int),
            best.metric == self@.candidate_metric(best.ranker as int),
            best.metric <= UNIT,
    {
        let n = self.pool.len();
        let mut ranker: usize = 0;
        let mut metric: u32 = self.weighted_metric(&self.pool[0]);
        let mut k: usize = 1;
        while k < n
            invariant
                1 <= k <= n,
                n == self@.pool.len(),
                self@.well_formed(),
                ranker < k,
                metric == self@.candidate_metric(ranker as int),
                metric <= UNIT,
                forall|j: int|
                    0 <= j < k ==> #[trigger] self@.candidate_metric(j) <= self@.candidate_metric(
                        ranker as int,
                    ),
                forall|j: int|
                    0 <= j < ranker ==> #[trigger] self@.candidate_metric(j)
                        < self@.candidate_metric(ranker as int),
            decreases n - k,
        {
            let found = self.weighted_metric(&self.pool[k]);
            assert(found == self@.candidate_metric(k as int));
            if found > metric {
                ranker = k;
                metric = found;
            }
            k += 1;
        }
        Selection { ranker, metric }
    }

    /// Begins a round: chooses the weak ranker with the highest weighted
    /// metric, the first of the pool among equals, and goes on to await its
    /// confidence weight. Asked again before that weight has come, it hands
    /// out the same choice.
    ///
    /// A fitted learner refuses and stays as it is; so does one that has
    /// failed, and one that awaits new weights. Otherwise training fails,
    /// for good, where the data set is empty, where the pool is empty, and
    /// where the chosen metric is 1.0 or more, at which the confidence
    /// weight is not defined. A choice that is handed out has a metric
    /// strictly below 1.0.
    pub fn select(&mut self) -> (result: Result<Selection, LtrError>)
        requires
            old(self)@.well_formed(),
        ensures
            final(self)@.well_formed(),
            match result {
                Ok(chosen) => {
                    &&& old(self)@.phase.trainable()
                    &&& old(self)@.step != Step::Weights
                    &&& old(self)@.data.len() > 0
                    &&& old(self)@.is_choice(chosen)
                    &&& final(self)@ == (AdaRankView {
                        step: Step::Confidence(chosen),
                        ..old(self)@
                    })
                },
                Err(LtrError::AlreadyFitted) => {
                    &&& old(self)@.phase.fitted()
                    &&& final(self)@ == old(self)@
                },
                Err(LtrError::TrainingFailed) => {
                    &&& old(self)@.phase == Phase::Failed
                    &&& final(self)@ == old(self)@
                },
                Err(LtrError::OutOfTurn) => {
                    &&& old(self)@.phase.trainable()
                    &&& old(self)@.step == Step::Weights
                    &&& final(self)@ == old(self)@
                },
                Err(LtrError::EmptyDataSet) => {
                    &&& old(self)@.phase.trainable()
                    &&& old(self)@.step == Step::Select
                    &&& old(self)@.data.len() == 0
                    &&& final(self)@ == (AdaRankView { phase: Phase::Failed, ..old(self)@ })
                },
                Err(LtrError::NoViableRanker) => {
                    &&& old(self)@.phase.trainable()
                    &&& old(self)@.step == Step::Select
                    &&& old(self)@.data.len() > 0
                    &&& old(self)@.pool.len() == 0
                    &&& final(self)@ == (AdaRankView { phase: Phase::Failed, ..old(self)@ })
                },
                Err(LtrError::NumericSingularity) => {
                    &&& old(self)@.phase.trainable()
                    &&& old(self)@.step == Step::Select
                    &&& old(self)@.data.len() > 0
                    &&& exists|b: int|
                        old(self)@.is_best(b) && #[trigger] old(self)@.candidate_metric(b) >= UNIT
                    &&& final(self)@ == (AdaRankView { phase: Phase::Failed, ..old(self)@ })
                },
                Err(_) => false,
            },
    {
        match self.phase {
            Phase::Converged | Phase::MaxRoundsReached => {
                return Err(LtrError::AlreadyFitted);
            },
            Phase::Failed => {
                return Err(LtrError::TrainingFailed);
            },
            _ => {},
        }
        match self.step {
            Step::Weights => {
                return Err(LtrError::OutOfTurn);
            },
            Step::Confidence(chosen) => {
                return Ok(chosen);
            },
            Step::Select => {},
        }
        if self.dataset.len() == 0 {
            self.phase = Phase::Failed;
            return Err(LtrError::EmptyDataSet);
        }
        if self.pool.len() == 0 {
            self.phase = Phase::Failed;
            return Err(LtrError::NoViableRanker);
        }
        let best = self.best_candidate();
        if best.metric >= UNIT {
            self.phase = Phase::Failed;
            Err(LtrError::NumericSingularity)
        } else {
            self.step = Step::Confidence(best);
            proof {
                lemma_choice_ignores_progress(old(self)@, self@, best);
            }
            Ok(best)
        }
    }

    /// Completes a round: the chosen weak ranker joins the ensemble with
    /// the confidence weight `alpha`, the overall weighted metric of the new
    /// ensemble is recorded, and the learner decides whether training ends:
    /// with the last round that the limit allows, or on a plateau.
    ///
    /// A learner that is fitted or has failed refuses and stays as it is;
    /// so does one that has chosen no ranker, and any learner where `alpha`
    /// cannot be the confidence weight of the chosen ranker's metric.
    pub fn accept(&mut self, alpha: i32) -> (result: Result<Progress, LtrError>)
        requires
            old(self)@.well_formed(),
        ensures
            final(self)@.well_formed(),
            match result {
                Ok(progress) => {
                    &&& old(self)@.phase.trainable()
                    &&& match old(self)@.step {
                        Step::Confidence(chosen) => {
                            &&& admits_confidence(chosen.metric as nat, alpha as int)
                            &&& final(self)@.ensemble@ == old(self)@.ensemble@.push(
                                (Member {
                                    ranker: old(self)@.pool[chosen.ranker as int],
                                    alpha,
                                }),
                            )
                        },
                        _ => false,
                    }
                    &&& final(self)@ == old(self)@.after_round(
                        final(self)@.ensemble,
                        weighted_metric(
                            &old(self)@.evaluator,
                            &final(self)@.ensemble,
                            old(self)@.data,
                            old(self)@.weights,
                        ) as u32,
                    )
                    &&& final(self)@.history.last() == weighted_metric(
                        &old(self)@.evaluator,
                        &final(self)@.ensemble,
                        old(self)@.data,
                        old(self)@.weights,
                    )
                    &&& progress == if final(self)@.phase.fitted() {
                        Progress::Finished
                    } else {
                        Progress::Continue
                    }
                },
                Err(LtrError::AlreadyFitted) => {
                    &&& old(self)@.phase.fitted()
                    &&& final(self)@ == old(self)@
                },
                Err(LtrError::TrainingFailed) => {
                    &&& old(self)@.phase == Phase::Failed
                    &&& final(self)@ == old(self)@
                },
                Err(LtrError::OutOfTurn) => {
                    &&& old(self)@.phase.trainable()
                    &&& !(old(self)@.step is Confidence)
                    &&& final(self)@ == old(self)@
                },
                Err(LtrError::OutOfRange) => {
                    &&& old(self)@.phase.trainable()
                    &&& match old(self)@.step {
                        Step::Confidence(chosen) => !admits_confidence(
                            chosen.metric as nat,
                            alpha as int,
                        ),
                        _ => false,
                    }
                    &&& final(self)@ == old(self)@
                },
                Err(_) => false,
            },
    {
        match self.phase {
            Phase::Converged | Phase::MaxRoundsReached => {
                return Err(LtrError::AlreadyFitted);
            },
            Phase::Failed => {
                return Err(LtrError::TrainingFailed);
            },
            _ => {},
        }
        let chosen = match self.step {
            Step::Confidence(chosen) => chosen,
            _ => {
                return Err(LtrError::OutOfTurn);
            },
        };
        let r: u64 = chosen.metric as u64;
        let unit: u64 = UNIT as u64;
        let floor: u64 = (r * unit) / (unit + r);
        let ceiling: u64 = (r * unit) / (unit - r) + 1;
        if alpha < 0 || (alpha as u64) < floor || (alpha as u64) > ceiling {
            return Err(LtrError::OutOfRange);
        }
        let grown = self.ensemble.extended(self.pool[chosen.ranker], alpha);
        let overall = self.weighted_metric(&grown);
        let rounds = grown.len();
        self.ensemble = grown;
        self.history.push(overall);
        let t = self.history.len();
        if rounds == self.max_rounds as usize {
            self.phase = Phase::MaxRoundsReached;
            self.step = Step::Select;
            return Ok(Progress::Finished);
        }
        let mut flat = false;
        if t >= 2 && t >= self.min_rounds as usize {
            let last = self.history[t - 1];
            let before = self.history[t - 2];
            let change = if last >= before {
                last - before
            } else {
                before - last
            };
            flat = change < self.tolerance;
        }
        if flat {
            self.phase = Phase::Converged;
            self.step = Step::Select;
            Ok(Progress::Finished)
        } else {
            self.phase = Phase::Training;
            self.step = Step::Weights;
            Ok(Progress::Continue)
        }
    }

    /// The metric that the current ensemble reaches on each list of the data
    /// set: what the next weights are computed from.
    pub fn list_metrics(&self) -> (metrics: Vec<u32>)
        ensures
            metrics@.len() == self@.data.len(),
            forall|i: int|
                0 <= i < metrics@.len() ==> #[trigger] metrics@[i] == self@.ensemble_metric(i),
            forall|i: int| 0 <= i < metrics@.len() ==> #[trigger] metrics@[i] <= UNIT,
    {
        let n = self.dataset.len();
        let mut metrics: Vec<u32> = Vec::new();
        let mut i: usize = 0;
        while i < n
            invariant
                i <= n,
                n == self.dataset@.len(),
                metrics@.len() == i,
                forall|p: int|
                    0 <= p < i ==> #[trigger] metrics@[p] == self@.ensemble_metric(p),
                forall|p: int| 0 <= p < i ==> #[trigger] metrics@[p] <= UNIT,
            decreases n - i,
        {
            let perm = rank_list(&self.ensemble, &self.dataset[i]);
            let score = self.evaluator.evaluate_ranklist(&perm);
            assert(self@.data[i as int] == self.dataset@[i as int]@);
            metrics.push(score);
            i += 1;
        }
        metrics
    }

    /// Ends a round that training goes on after: replaces the weights of
    /// the lists. Each weight is the exponential of minus the metric that
    /// the ensemble reaches on its list, in millionths. The weights form a
    /// distribution by their shares of the total.
    ///
    /// A learner that does not await weights refuses, and any learner
    /// refuses weights that are not one for each list, that lie outside the
    /// bounds of the lists' metrics, or that are all 0. A learner that
    /// refuses stays as it is.
    pub fn reweight(&mut self, weights: Vec<u32>) -> (result: Result<(), LtrError>)
        requires
            old(self)@.well_formed(),
        ensures
            final(self)@.well_formed(),
            match result {
                Ok(_) => {
                    &&& old(self)@.step == Step::Weights
                    &&& old(self)@.admits_weights(weights@)
                    &&& weight_total(weights@, weights@.len()) > 0
                    &&& final(self)@ == (AdaRankView {
                        weights: weights@,
                        step: Step::Select,
                        ..old(self)@
                    })
                },
                Err(LtrError::OutOfTurn) => {
                    &&& old(self)@.step != Step::Weights
                    &&& final(self)@ == old(self)@
                },
                Err(LtrError::IndexError) => {
                    &&& old(self)@.step == Step::Weights
                    &&& weights@.len() != old(self)@.data.len()
                    &&& final(self)@ == old(self)@
                },
                Err(LtrError::OutOfRange) => {
                    &&& old(self)@.step == Step::Weights
                    &&& weights@.len() == old(self)@.data.len()
                    &&& !old(self)@.admits_weights(weights@)
                    &&& final(self)@ == old(self)@
                },
                Err(LtrError::NumericSingularity) => {
                    &&& old(self)@.step == Step::Weights
                    &&& old(self)@.admits_weights(weights@)
                    &&& weight_total(weights@, weights@.len()) == 0
                    &&& final(self)@ == old(self)@
                },
                Err(_) => false,
            },
    {
        match self.step {
            Step::Weights => {},
            _ => {
                return Err(LtrError::OutOfTurn);
            },
        }
        if weights.len() != self.dataset.len() {
            return Err(LtrError::IndexError);
        }
        match self.weights_verdict(&weights) {
            Ok(_) => {
                self.weights = weights;
                self.step = Step::Select;
                Ok(())
            },
            Err(refusal) => Err(refusal),
        }
    }

    /// Holds candidate weights against the bounds of the lists' metrics:
    /// `OutOfRange` where one lies outside, `NumericSingularity` where all
    /// are 0.
    fn weights_verdict(&self, weights: &Vec<u32>) -> (verdict: Result<(), LtrError>)
        requires
            weights@.len() == self@.data.len(),
        ensures
            match verdict {
                Ok(_) => self@.admits_weights(weights@) && weight_total(
                    weights@,
                    weights@.len(),
                ) > 0,
                Err(LtrError::OutOfRange) => !self@.admits_weights(weights@),
                Err(LtrError::NumericSingularity) => self@.admits_weights(weights@)
                    && weight_total(weights@, weights@.len()) == 0,
                Err(_) => false,
            },
    {
        let n = weights.len();
        let metrics = self.list_metrics();
        let mut positive = false;
        let mut i: usize = 0;
        while i < n
            invariant
                i <= n,
                n == weights@.len(),
                n == metrics@.len(),
                n == self@.data.len(),
                forall|p: int|
                    0 <= p < n ==> #[trigger] metrics@[p] == self@.ensemble_metric(p),
                forall|p: int| 0 <= p < n ==> #[trigger] metrics@[p] <= UNIT,
                forall|p: int|
                    0 <= p < i ==> admits_weight(
                        #[trigger] self@.ensemble_metric(p),
                        weights@[p] as nat,
                    ),
                positive == (weight_total(weights@, i as nat) > 0),
            decreases n - i,
        {
            let m: u64 = metrics[i] as u64;
            let w: u64 = weights[i] as u64;
            let unit: u64 = UNIT as u64;
            assert(m == self@.ensemble_metric(i as int));
            if w < unit - m || w > (unit * unit) / (unit + m) + 1 {
                assert(!admits_weight(self@.ensemble_metric(i as int), weights@[i as int] as nat));
                return Err(LtrError::OutOfRange);
            }
            if weights[i] > 0 {
                positive = true;
            }
            i += 1;
        }
        if positive {
            Ok(())
        } else {
            Err(LtrError::NumericSingularity)
        }
    }

    /// The score of `dp` under the fitted model: the weighted sum of its
    /// weak rankers' scores. `NotFitted` exactly when training has not
    /// finished with a model.
    pub fn predict(&self, dp: &DataPoint) -> (result: Result<i128, LtrError>)
        ensures
            self@.phase.fitted() ==> result.is_ok() && result.unwrap() == self@.ensemble.score(
                dp@,
            ),
            !self@.phase.fitted() ==> result == Err::<i128, LtrError>(LtrError::NotFitted),
    {
        if self.is_fitted() {
            Ok(self.ensemble.predict(dp))
        } else {
            Err(LtrError::NotFitted)
        }
    }
}

} // verus!
