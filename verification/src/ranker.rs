//! Scoring functions over documents, and the rankings they induce.
use vstd::prelude::*;
use crate::datapoint::{DataPoint, DataPointView};
use crate::ranklist::{RankList, RankListPermutation};

verus! {

/// A scoring function: it assigns each document a relevance prediction, in
/// fixed point. Higher means more relevant. A ranker's scores are compared
/// with each other only, so each ranker keeps the scale that is exact for it.
pub trait Ranker {
    /// The score the ranker assigns to a document.
    spec fn score(&self, dp: DataPointView) -> int;

    /// Computes the score of `dp`. The result is a function of the ranker
    /// and the document alone.
    fn predict(&self, dp: &DataPoint) -> (score: i128)
        ensures
            score == self.score(dp@),
    ;
}

/// The simplest ranker: the value of one feature. A document that lacks the
/// feature scores 0.
#[derive(Debug, Clone, Copy, PartialEq, Eq, Structural)]
pub struct WeakRanker {
    /// The index of the feature that is read.
    pub feature: usize,
}

impl Ranker for WeakRanker {
    open spec fn score(&self, dp: DataPointView) -> int {
        if self.feature < dp.features.len() {
            dp.features[self.feature as int]
        } else {
            0
        }
    }

    fn predict(&self, dp: &DataPoint) -> (score: i128) {
        self.feature_value(dp) as i128
    }
}

impl WeakRanker {
    /// The value of the ranker's feature in `dp`, or 0 where `dp` lacks it.
    pub fn feature_value(&self, dp: &DataPoint) -> (value: i64)
        ensures
            value == self.score(dp@),
    {
        match dp.get_feature(self.feature) {
            Ok(value) => value,
            Err(_) => 0,
        }
    }
}

/// The pool that holds one weak ranker for each of the first `features`
/// feature indices, in ascending order.
pub fn feature_pool(features: usize) -> (pool: Vec<WeakRanker>)
    ensures
        pool@.len() == features,
        forall|k: int| 0 <= k < features ==> #[trigger] pool@[k].feature == k,
{
    let mut pool: Vec<WeakRanker> = Vec::new();
    let mut k: usize = 0;
    while k < features
        invariant
            k <= features,
            pool@.len() == k,
            forall|j: int| 0 <= j < k ==> #[trigger] pool@[j].feature == j,
        decreases features - k,
    {
        pool.push(WeakRanker { feature: k });
        k += 1;
    }
    pool
}

/// Where document `idx` lands when it joins `order`, a ranking of documents
/// that all come before it in the list: behind every document that scores at
/// least as high, in front of the others.
pub open spec fn insert_ranked(scores: Seq<int>, order: Seq<nat>, idx: nat) -> Seq<nat>
    decreases order.len(),
{
    if order.len() == 0 {
        seq![idx]
    } else if scores[order.last() as int] >= scores[idx as int] {
        order.push(idx)
    } else {
        insert_ranked(scores, order.drop_last(), idx).push(order.last())
    }
}

/// The ranking of the first `n` documents by descending score, documents of
/// equal score in their order in the list.
pub open spec fn ranking(scores: Seq<int>, n: nat) -> Seq<nat>
    decreases n,
{
    if n == 0 {
        Seq::empty()
    } else {
        insert_ranked(scores, ranking(scores, (n - 1) as nat), (n - 1) as nat)
    }
}

/// Whether document `a` is ranked in front of document `b`: it scores
/// higher, or the same and comes first in the list.
pub open spec fn precedes(scores: Seq<int>, a: nat, b: nat) -> bool {
    scores[a as int] > scores[b as int] || (scores[a as int] == scores[b as int] && a < b)
}

/// Whether `order` presents documents so that each is in front of all that
/// follow it.
pub open spec fn is_ranked(scores: Seq<int>, order: Seq<nat>) -> bool {
    forall|p: int, q: int| 0 <= p < q < order.len() ==> precedes(scores, order[p], order[q])
}

/// Inserting a document keeps a ranking ranked, and adds that document and
/// no other.
pub proof fn lemma_insert_ranked(scores: Seq<int>, order: Seq<nat>, idx: nat)
    requires
        is_ranked(scores, order),
        forall|p: int| 0 <= p < order.len() ==> #[trigger] order[p] < idx,
    ensures
        insert_ranked(scores, order, idx).len() == order.len() + 1,
        is_ranked(scores, insert_ranked(scores, order, idx)),
        insert_ranked(scores, order, idx).contains(idx),
        forall|p: int| 0 <= p < order.len() ==> insert_ranked(scores, order, idx).contains(#[trigger] order[p]),
        forall|p: int|
            0 <= p < order.len() + 1 ==> {
                let x = #[trigger] insert_ranked(scores, order, idx)[p];
                x == idx || order.contains(x)
            },
    decreases order.len(),
{
    let out = insert_ranked(scores, order, idx);
    if order.len() == 0 {
        assert(out[0] == idx);
    } else if scores[order.last() as int] >= scores[idx as int] {
        let last = order.len() - 1;
        assert(out[order.len() as int] == idx);
        assert forall|p: int, q: int| 0 <= p < q < out.len() implies precedes(
            scores,
            out[p],
            out[q],
        ) by {
            if q == order.len() {
                assert(order[p] < idx);
                if p < last {
                    assert(precedes(scores, order[p], order[last]));
                }
            } else {
                assert(precedes(scores, order[p], order[q]));
            }
        }
        assert forall|p: int| 0 <= p < order.len() implies out.contains(#[trigger] order[p]) by {
            assert(out[p] == order[p]);
        }
        assert forall|p: int| 0 <= p < order.len() + 1 implies ({
            let x = #[trigger] out[p];
            x == idx || order.contains(x)
        }) by {
            if p < order.len() {
                assert(order[p] == out[p]);
            }
        }
    } else {
        let front = order.drop_last();
        let last = order.last();
        assert forall|p: int, q: int| 0 <= p < q < front.len() implies precedes(
            scores,
            front[p],
            front[q],
        ) by {
            assert(precedes(scores, order[p], order[q]));
        }
        assert forall|p: int| 0 <= p < front.len() implies #[trigger] front[p] < idx by {
            assert(order[p] < idx);
        }
        lemma_insert_ranked(scores, front, idx);
        let rec = insert_ranked(scores, front, idx);
        assert(out == rec.push(last));
        assert forall|p: int, q: int| 0 <= p < q < out.len() implies precedes(
            scores,
            out[p],
            out[q],
        ) by {
            if q == rec.len() {
                let x = rec[p];
                assert(out[p] == x);
                if x != idx {
                    assert(front.contains(x));
                    let w = choose|w: int| 0 <= w < front.len() && front[w] == x;
                    assert(precedes(scores, order[w], order[order.len() - 1]));
                }
            } else {
                assert(precedes(scores, rec[p], rec[q]));
            }
        }
        let at = choose|w: int| 0 <= w < rec.len() && rec[w] == idx;
        assert(out[at] == idx);
        assert forall|p: int| 0 <= p < order.len() implies out.contains(#[trigger] order[p]) by {
            if p < front.len() {
                assert(rec.contains(front[p]));
                let w = choose|w: int| 0 <= w < rec.len() && rec[w] == front[p];
                assert(out[w] == order[p]);
            } else {
                assert(out[rec.len() as int] == order[p]);
            }
        }
        assert forall|p: int| 0 <= p < order.len() + 1 implies ({
            let x = #[trigger] out[p];
            x == idx || order.contains(x)
        }) by {
            let x = out[p];
            if p < rec.len() {
                assert(x == rec[p]);
                if x != idx {
                    let w = choose|w: int| 0 <= w < front.len() && front[w] == x;
                    assert(order[w] == x);
                }
            } else {
                assert(order[order.len() - 1] == x);
            }
        }
    }
}

/// The ranking by score presents every one of the `n` documents exactly
/// once, by descending score, and documents of equal score in the order
/// they have in the list.
pub proof fn lemma_ranking_is_stable_descending(scores: Seq<int>, n: nat)
    ensures
        ranking(scores, n).len() == n,
        is_ranked(scores, ranking(scores, n)),
        forall|p: int| 0 <= p < n ==> #[trigger] ranking(scores, n)[p] < n,
        forall|p: int, q: int| 0 <= p < q < n ==> ranking(scores, n)[p] != ranking(scores, n)[q],
        forall|d: nat| d < n ==> ranking(scores, n).contains(d),
    decreases n,
{
    if n > 0 {
        let idx = (n - 1) as nat;
        let before = ranking(scores, idx);
        lemma_ranking_is_stable_descending(scores, idx);
        lemma_insert_ranked(scores, before, idx);
        let out = ranking(scores, n);
        assert forall|p: int| 0 <= p < n implies #[trigger] out[p] < n by {
            let x = out[p];
            if x != idx {
                let w = choose|w: int| 0 <= w < before.len() && before[w] == x;
                assert(before[w] < idx);
            }
        }
        assert forall|p: int, q: int| 0 <= p < q < n implies out[p] != out[q] by {
            assert(precedes(scores, out[p], out[q]));
        }
        assert forall|d: nat| d < n implies out.contains(d) by {
            if d < idx {
                assert(before.contains(d));
                let w = choose|w: int| 0 <= w < before.len() && before[w] == d;
                assert(out.contains(before[w]));
            }
        }
    }
}

/// A vector of positions as mathematical values.
pub open spec fn positions(order: Seq<usize>) -> Seq<nat> {
    order.map_values(|i: usize| i as nat)
}

/// A vector of scores as mathematical values.
pub open spec fn score_values(scores: Seq<i128>) -> Seq<int> {
    scores.map_values(|s: i128| s as int)
}

/// The scores a ranker gives the documents of a list, position by position.
pub open spec fn scores_of<R: Ranker>(ranker: &R, docs: Seq<DataPointView>) -> Seq<int> {
    Seq::new(docs.len(), |i: int| ranker.score(docs[i]))
}

/// The ranking that a ranker induces on a list.
pub open spec fn ranking_by<R: Ranker>(ranker: &R, docs: Seq<DataPointView>) -> Seq<nat> {
    ranking(scores_of(ranker, docs), docs.len())
}

/// Orders the positions of `scores` by descending score; positions of equal
/// score keep their order in the list.
pub fn rank_by_scores(scores: &Vec<i128>) -> (order: Vec<usize>)
    ensures
        positions(order@) == ranking(score_values(scores@), scores@.len()),
{
    let ghost s = score_values(scores@);
    let n = scores.len();
    let mut order: Vec<usize> = Vec::new();
    let mut i: usize = 0;
    while i < n
        invariant
            i <= n,
            n == scores@.len(),
            s == score_values(scores@),
            order@.len() == i,
            positions(order@) == ranking(s, i as nat),
            forall|p: int| 0 <= p < i ==> #[trigger] order@[p] < i,
        decreases n - i,
    {
        let ghost prev = positions(order@);
        order.push(i);
        let mut j: usize = i;
        assert(prev.subrange(0, i as int) =~= prev);
        assert(prev.subrange(i as int, i as int) =~= Seq::<nat>::empty());
        assert(insert_ranked(s, prev, i as nat) =~= insert_ranked(s, prev, i as nat) + Seq::<
            nat,
        >::empty());
        while j > 0 && scores[order[j - 1]] < scores[i]
            invariant
                j <= i < n,
                n == scores@.len(),
                s == score_values(scores@),
                prev.len() == i,
                order@.len() == i + 1,
                order@[j as int] == i,
                forall|p: int| 0 <= p < j ==> #[trigger] order@[p] == prev[p],
                forall|p: int| j < p <= i ==> #[trigger] order@[p] == prev[p - 1],
                forall|p: int| 0 <= p < i ==> #[trigger] prev[p] < i,
                insert_ranked(s, prev, i as nat) == insert_ranked(
                    s,
                    prev.subrange(0, j as int),
                    i as nat,
                ) + prev.subrange(j as int, i as int),
            decreases j,
        {
            let moved = order[j - 1];
            proof {
                let head = prev.subrange(0, j as int);
                assert(head.last() == prev[j - 1]);
                assert(moved == prev[j - 1]);
                assert(s[moved as int] == scores@[moved as int]);
                assert(s[i as int] == scores@[i as int]);
                assert(head.drop_last() =~= prev.subrange(0, j - 1));
                assert(insert_ranked(s, head, i as nat) == insert_ranked(
                    s,
                    prev.subrange(0, j - 1),
                    i as nat,
                ).push(prev[j - 1]));
                assert(insert_ranked(s, prev.subrange(0, j - 1), i as nat).push(prev[j - 1])
                    + prev.subrange(j as int, i as int) =~= insert_ranked(
                    s,
                    prev.subrange(0, j - 1),
                    i as nat,
                ) + prev.subrange(j - 1, i as int));
            }
            order.set(j, moved);
            order.set(j - 1, i);
            j -= 1;
        }
        proof {
            let head = prev.subrange(0, j as int);
            if j > 0 {
                let moved = order@[j - 1];
                assert(moved == prev[j - 1]);
                assert(head.last() == prev[j - 1]);
                assert(s[moved as int] == scores@[moved as int]);
                assert(s[i as int] == scores@[i as int]);
            }
            assert(insert_ranked(s, head, i as nat) == head.push(i as nat));
            assert(positions(order@) =~= head.push(i as nat) + prev.subrange(j as int, i as int));
        }
        i += 1;
    }
    order
}

/// The ranking of `list` that `ranker` induces: its documents by descending
/// score, ties in their order in the list.
pub fn rank_list<'a, R: Ranker>(ranker: &R, list: &'a RankList) -> (perm: RankListPermutation<'a>)
    ensures
        perm@.docs == list@,
        perm@.order == ranking_by(ranker, list@),
        perm.well_formed(),
{
    let n = list.len();
    let mut scores: Vec<i128> = Vec::new();
    let mut i: usize = 0;
    while i < n
        invariant
            i <= n,
            n == list@.len(),
            scores@.len() == i,
            forall|p: int| 0 <= p < i ==> #[trigger] scores@[p] == ranker.score(list@[p]),
        decreases n - i,
    {
        match list.get(i) {
            Ok(dp) => {
                scores.push(ranker.predict(dp));
            },
            Err(_) => {
                assert(false);
            },
        }
        i += 1;
    }
    assert(score_values(scores@) =~= scores_of(ranker, list@));
    let order = rank_by_scores(&scores);
    proof {
        lemma_ranking_is_stable_descending(scores_of(ranker, list@), list@.len());
    }
    let perm = RankListPermutation { permutation: order, ranklist: list };
    assert(perm@.order == positions(order@));
    perm
}

} // verus!
