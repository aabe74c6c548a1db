use ltrs::datapoint::DataPoint;
use ltrs::ensemble::adarank::{AdaRank, Phase, Progress, Selection, Step};
use ltrs::ensemble::Member;
use ltrs::error::LtrError;
use ltrs::eval::map::MAP;
use ltrs::ranker::{feature_pool, WeakRanker};
use ltrs::ranklist::RankList;
use ltrs::UNIT;

fn list(rows: &[(u8, Vec<i64>)]) -> RankList {
    RankList::new(
        rows.iter()
            .map(|(label, features)| {
                DataPoint::new(*label, 1, features.iter().map(|f| f * 1_000_000).collect(), None)
            })
            .collect(),
    )
}

/// Two lists and two features: each feature ranks one list perfectly and the
/// other one badly.
fn crossed() -> Vec<RankList> {
    vec![
        list(&[(1, vec![3, 1]), (0, vec![2, 2]), (0, vec![1, 3])]),
        list(&[(0, vec![3, 1]), (1, vec![2, 3]), (0, vec![1, 2])]),
    ]
}

/// One list on which the only feature puts the relevant document second.
fn stubborn() -> Vec<RankList> {
    vec![list(&[(0, vec![2]), (1, vec![1])])]
}

/// One list that the first feature ranks perfectly.
fn separable() -> Vec<RankList> {
    vec![list(&[(1, vec![5, 0]), (0, vec![1, 4]), (1, vec![4, 2]), (0, vec![0, 1])])]
}

fn alpha_of(metric: u32) -> i32 {
    let r = metric as f64 / UNIT as f64;
    (0.5 * ((1.0 + r) / (1.0 - r)).ln() * UNIT as f64).round() as i32
}

fn weight_of(metric: u32) -> u32 {
    ((-(metric as f64) / UNIT as f64).exp() * UNIT as f64).round() as u32
}

fn fit(learner: &mut AdaRank<MAP>) -> Result<(), LtrError> {
    loop {
        let chosen = learner.select()?;
        match learner.accept(alpha_of(chosen.metric))? {
            Progress::Finished => return Ok(()),
            Progress::Continue => {
                let weights = learner.list_metrics().iter().map(|m| weight_of(*m)).collect();
                learner.reweight(weights)?;
            },
        }
    }
}

#[test]
fn new_learner_is_uninitialized_with_uniform_weights() {
    let learner = AdaRank::new(crossed(), MAP, 50, 3, 3_000, feature_pool(2));
    assert_eq!(learner.phase(), Phase::Uninitialized);
    assert!(!learner.is_fitted());
    assert_eq!(learner.rounds(), 0);
    assert_eq!(learner.weights(), &vec![1, 1]);
    assert!(learner.history().is_empty());
    assert_eq!(learner.ensemble().len(), 0);
}

#[test]
fn learner_with_no_rounds_allowed_is_fitted_at_once() {
    let mut learner = AdaRank::new(crossed(), MAP, 0, 0, 0, feature_pool(2));
    assert_eq!(learner.phase(), Phase::MaxRoundsReached);
    assert_eq!(learner.select(), Err(LtrError::AlreadyFitted));
    let dp = DataPoint::new(1, 1, vec![5_000_000], None);
    assert_eq!(learner.predict(&dp), Ok(0));
}

#[test]
fn weighted_metric_with_uniform_weights() {
    let learner = AdaRank::new(crossed(), MAP, 50, 3, 3_000, feature_pool(2));
    // first feature: 1.0 on the first list, 0.5 on the second
    assert_eq!(learner.weighted_metric(&WeakRanker { feature: 0 }), 750_000);
    // second feature: 1/3 on the first list, 1.0 on the second
    assert_eq!(learner.weighted_metric(&WeakRanker { feature: 1 }), (333_333 + 1_000_000) / 2);
}

#[test]
fn weighted_metric_follows_the_weights() {
    let mut learner = AdaRank::new(crossed(), MAP, 50, 3, 3_000, feature_pool(2));
    let chosen = learner.select().unwrap();
    learner.accept(alpha_of(chosen.metric)).unwrap();
    assert_eq!(learner.reweight(vec![100_000, 600_000]), Ok(()));
    assert_eq!(learner.weights(), &vec![100_000, 600_000]);
    // (0.1 * 1.0 + 0.6 * 0.5) / 0.7 and (0.1 / 3 + 0.6 * 1.0) / 0.7
    assert_eq!(learner.weighted_metric(&WeakRanker { feature: 0 }), 571_428);
    assert_eq!(learner.weighted_metric(&WeakRanker { feature: 1 }), 904_761);
    assert_eq!(learner.select(), Ok(Selection { ranker: 1, metric: 904_761 }));
}

#[test]
fn select_picks_the_highest_weighted_metric() {
    let mut learner = AdaRank::new(crossed(), MAP, 50, 3, 3_000, feature_pool(2));
    assert_eq!(learner.select(), Ok(Selection { ranker: 0, metric: 750_000 }));
    assert_eq!(learner.phase(), Phase::Uninitialized);
}

#[test]
fn select_breaks_ties_by_pool_order() {
    let pool = vec![WeakRanker { feature: 0 }, WeakRanker { feature: 0 }, WeakRanker { feature: 1 }];
    let mut learner = AdaRank::new(crossed(), MAP, 50, 3, 3_000, pool);
    assert_eq!(learner.select(), Ok(Selection { ranker: 0, metric: 750_000 }));
    let pool = vec![WeakRanker { feature: 1 }, WeakRanker { feature: 0 }, WeakRanker { feature: 0 }];
    let mut learner = AdaRank::new(crossed(), MAP, 50, 3, 3_000, pool);
    assert_eq!(learner.select(), Ok(Selection { ranker: 1, metric: 750_000 }));
}

#[test]
fn fit_fails_on_empty_data_set() {
    let mut learner = AdaRank::new(vec![], MAP, 50, 3, 3_000, feature_pool(2));
    assert_eq!(fit(&mut learner), Err(LtrError::EmptyDataSet));
    assert_eq!(learner.phase(), Phase::Failed);
    assert_eq!(learner.select(), Err(LtrError::TrainingFailed));
    assert_eq!(learner.accept(1), Err(LtrError::TrainingFailed));
    assert_eq!(learner.reweight(vec![]), Err(LtrError::OutOfTurn));
    let dp = DataPoint::new(1, 1, vec![], None);
    assert_eq!(learner.predict(&dp), Err(LtrError::NotFitted));
}

#[test]
fn fit_fails_on_empty_pool() {
    let mut learner = AdaRank::new(crossed(), MAP, 50, 3, 3_000, vec![]);
    assert_eq!(fit(&mut learner), Err(LtrError::NoViableRanker));
    assert_eq!(learner.phase(), Phase::Failed);
    assert_eq!(learner.rounds(), 0);
}

#[test]
fn fit_fails_where_the_chosen_metric_is_one() {
    let mut learner = AdaRank::new(separable(), MAP, 50, 3, 3_000, feature_pool(2));
    assert_eq!(learner.weighted_metric(&WeakRanker { feature: 0 }), UNIT);
    assert_eq!(fit(&mut learner), Err(LtrError::NumericSingularity));
    assert_eq!(learner.phase(), Phase::Failed);
    assert_eq!(learner.rounds(), 0);
}

#[test]
fn predict_before_fitting_is_refused() {
    let mut learner = AdaRank::new(crossed(), MAP, 50, 3, 3_000, feature_pool(2));
    let dp = DataPoint::new(1, 1, vec![1_000_000, 1_000_000], None);
    assert_eq!(learner.predict(&dp), Err(LtrError::NotFitted));
    let chosen = learner.select().unwrap();
    assert_eq!(learner.accept(alpha_of(chosen.metric)), Ok(Progress::Continue));
    assert_eq!(learner.phase(), Phase::Training);
    assert_eq!(learner.predict(&dp), Err(LtrError::NotFitted));
}

#[test]
fn accept_before_select_is_out_of_turn() {
    let mut learner = AdaRank::new(crossed(), MAP, 50, 3, 3_000, feature_pool(2));
    assert_eq!(learner.step(), Step::Select);
    assert_eq!(learner.accept(972_955), Err(LtrError::OutOfTurn));
    assert_eq!(learner.rounds(), 0);
    assert_eq!(learner.phase(), Phase::Uninitialized);
}

#[test]
fn select_hands_out_the_same_choice_until_it_is_accepted() {
    let mut learner = AdaRank::new(crossed(), MAP, 50, 3, 3_000, feature_pool(2));
    let first = learner.select();
    assert_eq!(learner.step(), Step::Confidence(Selection { ranker: 0, metric: 750_000 }));
    assert_eq!(learner.select(), first);
    assert_eq!(learner.accept(972_955), Ok(Progress::Continue));
    assert_eq!(learner.step(), Step::Weights);
    assert_eq!(learner.select(), Err(LtrError::OutOfTurn));
    assert_eq!(learner.accept(972_955), Err(LtrError::OutOfTurn));
    assert_eq!(learner.reweight(vec![367_879, 606_531]), Ok(()));
    assert_eq!(learner.step(), Step::Select);
}

#[test]
fn accept_refuses_a_confidence_outside_its_bounds() {
    let mut learner = AdaRank::new(crossed(), MAP, 50, 3, 3_000, feature_pool(2));
    learner.select().unwrap();
    // r = 0.75: r / (1 + r) = 0.428571.., r / (1 - r) = 3.0
    assert_eq!(learner.accept(-1), Err(LtrError::OutOfRange));
    assert_eq!(learner.accept(428_570), Err(LtrError::OutOfRange));
    assert_eq!(learner.accept(3_000_002), Err(LtrError::OutOfRange));
    assert_eq!(learner.accept(i32::MAX), Err(LtrError::OutOfRange));
    assert_eq!(learner.rounds(), 0);
    assert_eq!(learner.step(), Step::Confidence(Selection { ranker: 0, metric: 750_000 }));
    assert_eq!(learner.accept(428_571), Ok(Progress::Continue));
    assert_eq!(learner.rounds(), 1);
}

#[test]
fn accept_takes_the_upper_bound_of_the_confidence() {
    let mut learner = AdaRank::new(crossed(), MAP, 50, 3, 3_000, feature_pool(2));
    learner.select().unwrap();
    assert_eq!(learner.accept(3_000_001), Ok(Progress::Continue));
}

#[test]
fn reweight_before_a_round_is_out_of_turn() {
    let mut learner = AdaRank::new(crossed(), MAP, 50, 3, 3_000, feature_pool(2));
    assert_eq!(learner.reweight(vec![1, 1]), Err(LtrError::OutOfTurn));
    learner.select().unwrap();
    assert_eq!(learner.reweight(vec![1, 1]), Err(LtrError::OutOfTurn));
    assert_eq!(learner.weights(), &vec![1, 1]);
}

#[test]
fn reweight_refuses_wrong_length_and_weights_outside_their_bounds() {
    let mut learner = AdaRank::new(crossed(), MAP, 50, 3, 3_000, feature_pool(2));
    let chosen = learner.select().unwrap();
    learner.accept(alpha_of(chosen.metric)).unwrap();
    assert_eq!(learner.list_metrics(), vec![1_000_000, 500_000]);
    assert_eq!(learner.reweight(vec![367_879]), Err(LtrError::IndexError));
    assert_eq!(learner.reweight(vec![367_879, 606_531, 1]), Err(LtrError::IndexError));
    // metric 1.0 admits 0 to 0.5, metric 0.5 admits 0.5 to 0.666667
    assert_eq!(learner.reweight(vec![500_002, 606_531]), Err(LtrError::OutOfRange));
    assert_eq!(learner.reweight(vec![367_879, 499_999]), Err(LtrError::OutOfRange));
    assert_eq!(learner.reweight(vec![367_879, 666_668]), Err(LtrError::OutOfRange));
    assert_eq!(learner.weights(), &vec![1, 1]);
    assert_eq!(learner.step(), Step::Weights);
    assert_eq!(learner.reweight(vec![0, 500_000]), Ok(()));
    assert_eq!(learner.weights(), &vec![0, 500_000]);
}

#[test]
fn reweight_takes_the_bounds_themselves() {
    let mut learner = AdaRank::new(crossed(), MAP, 50, 3, 3_000, feature_pool(2));
    learner.select().unwrap();
    learner.accept(972_955).unwrap();
    // metric 1.0: up to 1 / 2; metric 0.5: up to 1 / 1.5, one millionth of slack each
    assert_eq!(learner.reweight(vec![500_001, 666_667]), Ok(()));
    assert_eq!(learner.weights(), &vec![500_001, 666_667]);
    let mut learner = AdaRank::new(crossed(), MAP, 50, 3, 3_000, feature_pool(2));
    learner.select().unwrap();
    learner.accept(972_955).unwrap();
    assert_eq!(learner.reweight(vec![0, 500_000]), Ok(()));
}

#[test]
fn reweight_refuses_weights_that_are_all_zero() {
    let mut learner = AdaRank::new(crossed(), MAP, 5, 100, 0, feature_pool(2));
    for _ in 0..2 {
        let chosen = learner.select().unwrap();
        assert_eq!(learner.accept(alpha_of(chosen.metric)), Ok(Progress::Continue));
        if learner.rounds() < 2 {
            let weights = learner.list_metrics().iter().map(|m| weight_of(*m)).collect();
            learner.reweight(weights).unwrap();
        }
    }
    assert_eq!(learner.list_metrics(), vec![UNIT, UNIT]);
    assert_eq!(learner.reweight(vec![0, 0]), Err(LtrError::NumericSingularity));
    assert_eq!(learner.step(), Step::Weights);
    assert_eq!(learner.reweight(vec![367_879, 367_879]), Ok(()));
}

#[test]
fn first_round_records_member_and_metric() {
    let mut learner = AdaRank::new(crossed(), MAP, 50, 3, 3_000, feature_pool(2));
    let chosen = learner.select().unwrap();
    // 0.5 * ln(1.75 / 0.25)
    assert_eq!(alpha_of(chosen.metric), 972_955);
    assert_eq!(learner.accept(972_955), Ok(Progress::Continue));
    assert_eq!(learner.rounds(), 1);
    assert_eq!(
        learner.ensemble().get(0),
        Some(Member { ranker: WeakRanker { feature: 0 }, alpha: 972_955 })
    );
    assert_eq!(learner.history(), &vec![750_000]);
    assert_eq!(learner.list_metrics(), vec![1_000_000, 500_000]);
}

#[test]
fn second_round_turns_to_the_badly_ranked_list() {
    let mut learner = AdaRank::new(crossed(), MAP, 2, 1, 3_000, feature_pool(2));
    let chosen = learner.select().unwrap();
    learner.accept(alpha_of(chosen.metric)).unwrap();
    let weights: Vec<u32> = learner.list_metrics().iter().map(|m| weight_of(*m)).collect();
    // exp(-1.0) and exp(-0.5)
    assert_eq!(weights, vec![367_879, 606_531]);
    learner.reweight(weights).unwrap();
    let expected = ((367_879u64 * 333_333 + 606_531u64 * 1_000_000) / (367_879 + 606_531)) as u32;
    assert_eq!(learner.select(), Ok(Selection { ranker: 1, metric: expected }));
}

#[test]
fn crossed_lists_reach_a_perfect_ranking_in_two_rounds() {
    let mut learner = AdaRank::new(crossed(), MAP, 2, 1, 3_000, feature_pool(2));
    assert_eq!(fit(&mut learner), Ok(()));
    assert_eq!(learner.phase(), Phase::MaxRoundsReached);
    assert!(learner.is_fitted());
    assert_eq!(learner.rounds(), 2);
    let history = learner.history().clone();
    assert_eq!(history, vec![750_000, 1_000_000]);
    assert!(history.windows(2).all(|w| w[0] <= w[1]));
    assert_eq!(learner.list_metrics(), vec![UNIT, UNIT]);
}

#[test]
fn rounds_never_exceed_the_limit() {
    for limit in 1..6u32 {
        let mut learner = AdaRank::new(crossed(), MAP, limit, 100, 0, feature_pool(2));
        assert_eq!(fit(&mut learner), Ok(()));
        assert_eq!(learner.phase(), Phase::MaxRoundsReached);
        assert_eq!(learner.rounds(), limit as usize);
        assert_eq!(learner.ensemble().len(), limit as usize);
        assert_eq!(learner.history().len(), limit as usize);
    }
}

#[test]
fn training_ends_early_on_a_plateau() {
    let mut learner = AdaRank::new(stubborn(), MAP, 50, 3, 3_000, feature_pool(1));
    assert_eq!(fit(&mut learner), Ok(()));
    assert_eq!(learner.phase(), Phase::Converged);
    assert_eq!(learner.rounds(), 3);
    assert_eq!(learner.history(), &vec![500_000, 500_000, 500_000]);
}

#[test]
fn plateau_needs_two_rounds_at_least() {
    let mut learner = AdaRank::new(stubborn(), MAP, 50, 0, 3_000, feature_pool(1));
    assert_eq!(fit(&mut learner), Ok(()));
    assert_eq!(learner.phase(), Phase::Converged);
    assert_eq!(learner.rounds(), 2);
}

#[test]
fn zero_tolerance_never_converges() {
    let mut learner = AdaRank::new(stubborn(), MAP, 7, 1, 0, feature_pool(1));
    assert_eq!(fit(&mut learner), Ok(()));
    assert_eq!(learner.phase(), Phase::MaxRoundsReached);
    assert_eq!(learner.rounds(), 7);
}

#[test]
fn chosen_metric_stays_below_one_in_every_round() {
    let mut learner = AdaRank::new(crossed(), MAP, 6, 100, 0, feature_pool(2));
    loop {
        let chosen = learner.select().unwrap();
        assert!(chosen.metric < UNIT);
        match learner.accept(alpha_of(chosen.metric)).unwrap() {
            Progress::Finished => break,
            Progress::Continue => {
                let weights = learner.list_metrics().iter().map(|m| weight_of(*m)).collect();
                learner.reweight(weights).unwrap();
            },
        }
    }
    assert_eq!(learner.rounds(), 6);
}

#[test]
fn fitted_learner_refuses_further_rounds() {
    let mut learner = AdaRank::new(stubborn(), MAP, 1, 1, 3_000, feature_pool(1));
    assert_eq!(fit(&mut learner), Ok(()));
    assert_eq!(learner.select(), Err(LtrError::AlreadyFitted));
    assert_eq!(learner.accept(549_306), Err(LtrError::AlreadyFitted));
    assert_eq!(learner.reweight(vec![606_531]), Err(LtrError::OutOfTurn));
    assert_eq!(learner.rounds(), 1);
}

#[test]
fn fitted_learner_predicts_the_weighted_sum() {
    let mut learner = AdaRank::new(stubborn(), MAP, 50, 3, 3_000, feature_pool(1));
    assert_eq!(fit(&mut learner), Ok(()));
    // three rounds, each with alpha = 0.5 * ln(1.5 / 0.5)
    assert_eq!(alpha_of(500_000), 549_306);
    let dp = DataPoint::new(0, 1, vec![2_000_000], None);
    let first = learner.predict(&dp);
    let second = learner.predict(&dp);
    assert_eq!(first, Ok(3 * 549_306 * 2_000_000));
    assert_eq!(first, second);
}
