//! Rankers that separate relevant from irrelevant documents, and what the
//! metric and the learner make of them.
use vstd::prelude::*;
use crate::datapoint::DataPointView;
use crate::ensemble::adarank::{list_metric, weight_total, weighted_metric, weighted_total};
use crate::eval::map::{lemma_relevant_first_scores_one, relevant_at, MAP};
use crate::ranker::{lemma_ranking_is_stable_descending, precedes, ranking, scores_of, Ranker};
use crate::ranklist::labels_of;
use crate::UNIT;

verus! {

/// Whether a list holds a relevant document.
pub open spec fn has_relevant(docs: Seq<DataPointView>) -> bool {
    exists|d: int| 0 <= d < docs.len() && (#[trigger] docs[d]).label > 0
}

/// Whether `ranker` separates a list: each relevant document scores
/// strictly higher than each irrelevant one.
pub open spec fn separates<R: Ranker>(ranker: &R, docs: Seq<DataPointView>) -> bool {
    forall|a: int, b: int|
        #![trigger docs[a], docs[b]]
        0 <= a < docs.len() && 0 <= b < docs.len() && docs[a].label > 0 && docs[b].label == 0
            ==> ranker.score(docs[a]) > ranker.score(docs[b])
}

/// A ranker that separates a list with a relevant document ranks it
/// perfectly: the mean average precision of the induced ranking is 1.0.
pub proof fn lemma_separating_ranker_scores_one<R: Ranker>(ranker: &R, docs: Seq<DataPointView>)
    requires
        has_relevant(docs),
        separates(ranker, docs),
    ensures
        list_metric(&MAP, ranker, docs) == UNIT,
{
    let scores = scores_of(ranker, docs);
    let order = ranking(scores, docs.len());
    let labels = labels_of(docs);
    lemma_ranking_is_stable_descending(scores, docs.len());
    assert forall|p: int, q: int| 0 <= p < q && relevant_at(labels, order, q) implies relevant_at(
        labels,
        order,
        p,
    ) by {
        let front = order[p] as int;
        let back = order[q] as int;
        assert(order[p] < docs.len() && order[q] < docs.len());
        assert(precedes(scores, order[p], order[q]));
        assert(docs[back].label > 0);
        if docs[front].label == 0 {
            assert(ranker.score(docs[back]) > ranker.score(docs[front]));
        }
    }
    let d = choose|d: int| 0 <= d < docs.len() && (#[trigger] docs[d]).label > 0;
    assert(order.contains(d as nat));
    let w = choose|w: int| 0 <= w < order.len() && order[w] == d as nat;
    assert(relevant_at(labels, order, w));
    lemma_relevant_first_scores_one(labels, order);
}

/// A ranker that reaches 1.0 on every list reaches a weighted total of 1.0
/// times the total weight.
pub proof fn lemma_perfect_weighted_total<R: Ranker>(
    ranker: &R,
    data: Seq<Seq<DataPointView>>,
    weights: Seq<u32>,
    n: nat,
)
    requires
        n <= data.len(),
        forall|i: int| 0 <= i < data.len() ==> list_metric(&MAP, ranker, #[trigger] data[i]) == UNIT,
    ensures
        weighted_total(&MAP, ranker, data, weights, n) == weight_total(weights, n) * UNIT,
    decreases n,
{
    if n > 0 {
        lemma_perfect_weighted_total(ranker, data, weights, (n - 1) as nat);
        let before = weight_total(weights, (n - 1) as nat);
        let w = weights[n - 1] as nat;
        assert(list_metric(&MAP, ranker, data[n - 1]) == UNIT);
        assert((before + w) * UNIT == before * UNIT + w * UNIT) by (nonlinear_arith);
    }
}

/// On a data set whose every list has a relevant document and is separated
/// by one ranker, that ranker's weighted metric is 1.0 whatever the weights,
/// as long as they are not all 0. No confidence weight is defined there, so
/// a round that chooses such a ranker ends training with a failure.
pub proof fn lemma_separating_ranker_is_singular<R: Ranker>(
    ranker: &R,
    data: Seq<Seq<DataPointView>>,
    weights: Seq<u32>,
)
    requires
        weight_total(weights, data.len()) > 0,
        forall|i: int| 0 <= i < data.len() ==> has_relevant(#[trigger] data[i]),
        forall|i: int| 0 <= i < data.len() ==> separates(ranker, #[trigger] data[i]),
    ensures
        weighted_metric(&MAP, ranker, data, weights) == UNIT,
{
    assert forall|i: int| 0 <= i < data.len() implies list_metric(&MAP, ranker, #[trigger] data[i])
        == UNIT by {
        lemma_separating_ranker_scores_one(ranker, data[i]);
    }
    lemma_perfect_weighted_total(ranker, data, weights, data.len());
    let total = weight_total(weights, data.len());
    assert((total * UNIT as nat) / total == UNIT) by (nonlinear_arith)
        requires
            total > 0,
    ;
}

} // verus!
