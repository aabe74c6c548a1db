//! Mean average precision.
use vstd::prelude::*;
use crate::eval::Evaluator;
use crate::ranklist::{is_rearrangement, labels_of, PermutationView, RankListPermutation};
use crate::UNIT;

verus! {

/// How many leading entries of `order` a walk over it reaches: the walk ends
/// at the first entry that is not a position of a list of `len` documents.
pub open spec fn reached(order: Seq<nat>, len: nat) -> nat
    decreases order.len(),
{
    if order.len() == 0 || order[0] >= len {
        0
    } else {
        1 + reached(order.drop_first(), len)
    }
}

/// Whether the document presented at position `p` of the ranking is relevant.
pub open spec fn relevant_at(labels: Seq<nat>, order: Seq<nat>, p: int) -> bool {
    0 <= p < order.len() && order[p] < labels.len() && labels[order[p] as int] > 0
}

/// The number of relevant documents among the first `n` presented.
pub open spec fn relevant_among(labels: Seq<nat>, order: Seq<nat>, n: nat) -> nat
    decreases n,
{
    if n == 0 {
        0
    } else if relevant_at(labels, order, n - 1) {
        relevant_among(labels, order, (n - 1) as nat) + 1
    } else {
        relevant_among(labels, order, (n - 1) as nat)
    }
}

/// The precision after `n` documents, in millionths and rounded down: the
/// share of relevant documents among the first `n` presented.
pub open spec fn precision_at(labels: Seq<nat>, order: Seq<nat>, n: nat) -> nat {
    if n == 0 {
        0
    } else {
        (relevant_among(labels, order, n) * UNIT as nat) / n
    }
}

/// The sum, over the relevant documents among the first `n` presented, of the
/// precision at each one's position.
pub open spec fn precision_sum(labels: Seq<nat>, order: Seq<nat>, n: nat) -> nat
    decreases n,
{
    if n == 0 {
        0
    } else if relevant_at(labels, order, n - 1) {
        precision_sum(labels, order, (n - 1) as nat) + precision_at(labels, order, n)
    } else {
        precision_sum(labels, order, (n - 1) as nat)
    }
}

/// Average precision of a ranking, in millionths: the precision sum over the
/// documents the walk reaches, divided by the number of relevant ones among
/// them, rounded down; 0 when none of them is relevant.
pub open spec fn average_precision(labels: Seq<nat>, order: Seq<nat>) -> nat {
    let n = reached(order, labels.len());
    let hits = relevant_among(labels, order, n);
    if hits == 0 {
        0
    } else {
        precision_sum(labels, order, n) / hits
    }
}

/// `reached` counts a prefix of `order`.
pub proof fn lemma_reached_bounds(order: Seq<nat>, len: nat)
    ensures
        reached(order, len) <= order.len(),
        forall|p: int| 0 <= p < reached(order, len) ==> #[trigger] order[p] < len,
        reached(order, len) < order.len() ==> order[reached(order, len) as int] >= len,
    decreases order.len(),
{
    if order.len() == 0 || order[0] >= len {
    } else {
        let rest = order.drop_first();
        lemma_reached_bounds(rest, len);
        assert forall|p: int| 0 <= p < reached(order, len) implies #[trigger] order[p] < len by {
            if p > 0 {
                assert(order[p] == rest[p - 1]);
            }
        }
        if reached(order, len) < order.len() {
            assert(order[reached(order, len) as int] == rest[reached(rest, len) as int]);
        }
    }
}

/// A prefix of in-range entries followed by the end of `order`, or by an
/// entry out of range, is exactly what the walk reaches.
pub proof fn lemma_reached_is(order: Seq<nat>, len: nat, n: nat)
    requires
        n <= order.len(),
        forall|p: int| 0 <= p < n ==> #[trigger] order[p] < len,
        n < order.len() ==> order[n as int] >= len,
    ensures
        reached(order, len) == n,
{
    lemma_reached_bounds(order, len);
    let r = reached(order, len);
    if r < n {
        assert(order[r as int] < len);
    } else if r > n {
        assert(order[n as int] < len);
    }
}

/// The walk over a rearrangement of a list's positions reaches every entry.
pub proof fn lemma_rearrangement_is_walked_whole(order: Seq<nat>, len: nat)
    requires
        is_rearrangement(order, len),
    ensures
        reached(order, len) == order.len(),
{
    lemma_reached_is(order, len, order.len());
}

/// The relevant documents among the first `n` are at most `n`, and the
/// precision sum is at most 1.0 for each of them.
pub proof fn lemma_precision_bounds(labels: Seq<nat>, order: Seq<nat>, n: nat)
    ensures
        relevant_among(labels, order, n) <= n,
        precision_at(labels, order, n) <= UNIT,
        precision_sum(labels, order, n) <= relevant_among(labels, order, n) * UNIT,
    decreases n,
{
    if n > 0 {
        lemma_precision_bounds(labels, order, (n - 1) as nat);
        let hits = relevant_among(labels, order, n);
        assert(hits <= n);
        assert((hits * UNIT as nat) / n <= UNIT) by (nonlinear_arith)
            requires
                hits <= n,
                n > 0,
        ;
        let before = relevant_among(labels, order, (n - 1) as nat);
        assert((before + 1) * UNIT == before * UNIT + UNIT) by (nonlinear_arith);
    }
}

/// Counting further documents never lowers the number of relevant ones.
pub proof fn lemma_relevant_among_grows(labels: Seq<nat>, order: Seq<nat>, m: nat, n: nat)
    requires
        m <= n,
    ensures
        relevant_among(labels, order, m) <= relevant_among(labels, order, n),
    decreases n,
{
    if m < n {
        lemma_relevant_among_grows(labels, order, m, (n - 1) as nat);
    }
}

/// Where each of the first `n` documents presented is relevant, all `n` are
/// counted.
pub proof fn lemma_all_relevant_counted(labels: Seq<nat>, order: Seq<nat>, n: nat)
    requires
        forall|p: int| 0 <= p < n ==> relevant_at(labels, order, p),
    ensures
        relevant_among(labels, order, n) == n,
    decreases n,
{
    if n > 0 {
        lemma_all_relevant_counted(labels, order, (n - 1) as nat);
    }
}

/// Where no relevant document is presented after an irrelevant one, every
/// relevant document adds a precision of exactly 1.0.
pub proof fn lemma_relevant_first_sum(labels: Seq<nat>, order: Seq<nat>, n: nat)
    requires
        forall|p: int, q: int|
            0 <= p < q && relevant_at(labels, order, q) ==> relevant_at(labels, order, p),
    ensures
        precision_sum(labels, order, n) == relevant_among(labels, order, n) * UNIT,
    decreases n,
{
    if n > 0 {
        lemma_relevant_first_sum(labels, order, (n - 1) as nat);
        let before = relevant_among(labels, order, (n - 1) as nat);
        if relevant_at(labels, order, n - 1) {
            assert forall|p: int| 0 <= p < n implies relevant_at(labels, order, p) by {
                if p < n - 1 {
                    assert(relevant_at(labels, order, n - 1));
                }
            }
            lemma_all_relevant_counted(labels, order, n);
            assert((n * UNIT as nat) / n == UNIT) by (nonlinear_arith)
                requires
                    n > 0,
            ;
            assert((before + 1) * UNIT == before * UNIT + UNIT) by (nonlinear_arith);
        }
    }
}

/// A ranking in which no document is relevant has average precision 0: the
/// metric falls back to the lowest score, it does not fail.
pub proof fn lemma_no_relevant_scores_zero(labels: Seq<nat>, order: Seq<nat>)
    requires
        forall|p: int| !relevant_at(labels, order, p),
    ensures
        average_precision(labels, order) == 0,
{
    let n = reached(order, labels.len());
    lemma_none_relevant_counted(labels, order, n);
}

/// Where none of the first `n` documents presented is relevant, none is
/// counted.
pub proof fn lemma_none_relevant_counted(labels: Seq<nat>, order: Seq<nat>, n: nat)
    requires
        forall|p: int| 0 <= p < n ==> !relevant_at(labels, order, p),
    ensures
        relevant_among(labels, order, n) == 0,
    decreases n,
{
    if n > 0 {
        lemma_none_relevant_counted(labels, order, (n - 1) as nat);
    }
}

/// A ranking that presents at least one relevant document, and every
/// relevant document before every irrelevant one, has average precision
/// exactly 1.0.
pub proof fn lemma_relevant_first_scores_one(labels: Seq<nat>, order: Seq<nat>)
    requires
        exists|p: int| relevant_at(labels, order, p),
        forall|p: int, q: int|
            0 <= p < q && relevant_at(labels, order, q) ==> relevant_at(labels, order, p),
    ensures
        average_precision(labels, order) == UNIT,
{
    let n = reached(order, labels.len());
    let w = choose|p: int| relevant_at(labels, order, p);
    lemma_reached_bounds(order, labels.len());
    if w >= n {
        // the walk ended before `w`, at an entry that is no position of the list
        assert(n < order.len());
        assert(!relevant_at(labels, order, n as int));
        assert(relevant_at(labels, order, w));
        assert(false);
    }
    assert(relevant_among(labels, order, (w + 1) as nat) >= 1);
    lemma_relevant_among_grows(labels, order, (w + 1) as nat, n);
    lemma_relevant_first_sum(labels, order, n);
    let hits = relevant_among(labels, order, n);
    assert((hits * UNIT as nat) / hits == UNIT) by (nonlinear_arith)
        requires
            hits > 0,
    ;
}

/// The average precision depends on nothing but the labels and the order:
/// rankings that agree on both get the same score.
pub proof fn lemma_average_precision_is_a_function(
    labels_a: Seq<nat>,
    order_a: Seq<nat>,
    labels_b: Seq<nat>,
    order_b: Seq<nat>,
)
    requires
        labels_a =~= labels_b,
        order_a =~= order_b,
    ensures
        average_precision(labels_a, order_a) == average_precision(labels_b, order_b),
{
}

/// Mean average precision: the average, over the relevant documents of a
/// ranking, of the precision at each one's position.
///
/// A ranking that presents no relevant document scores 0. The metric is
/// defined for every ranking and never fails.
#[derive(Debug, Clone, Copy)]
pub struct MAP;

impl Evaluator for MAP {
    open spec fn score(&self, perm: PermutationView) -> nat {
        average_precision(labels_of(perm.docs), perm.order)
    }

    proof fn score_is_bounded(&self, perm: PermutationView) {
        let labels = labels_of(perm.docs);
        let n = reached(perm.order, labels.len());
        lemma_precision_bounds(labels, perm.order, n);
        let hits = relevant_among(labels, perm.order, n);
        let sum = precision_sum(labels, perm.order, n);
        if hits > 0 {
            assert(sum / hits <= UNIT) by (nonlinear_arith)
                requires
                    sum <= hits * UNIT,
                    hits > 0,
            ;
        }
    }

    /// Walks the ranking in order. Each relevant document adds the precision
    /// at its position; the walk ends early at the first entry that is not a
    /// position of the list. The sum is averaged over the relevant documents
    /// found, and a ranking without any scores 0.
    fn evaluate_ranklist(&self, perm: &RankListPermutation) -> (score: u32) {
        let ghost labels = labels_of(perm@.docs);
        let ghost order = perm@.order;
        let total = perm.permutation.len();
        let mut precision_total: u128 = 0;
        let mut hits: usize = 0;
        let mut pos: usize = 0;
        let mut walking = true;
        while walking && pos < total
            invariant
                labels == labels_of(perm@.docs),
                order == perm@.order,
                total == order.len(),
                pos <= total,
                forall|p: int| 0 <= p < pos ==> #[trigger] order[p] < labels.len(),
                !walking ==> pos < total && order[pos as int] >= labels.len(),
                hits == relevant_among(labels, order, pos as nat),
                precision_total == precision_sum(labels, order, pos as nat),
            decreases (if walking { 1int } else { 0int }) + total - pos,
        {
            let idx = perm.permutation[pos];
            assert(order[pos as int] == idx);
            match perm.ranklist.get(idx) {
                Ok(dp) => {
                    proof {
                        lemma_precision_bounds(labels, order, pos as nat);
                        lemma_precision_bounds(labels, order, (pos + 1) as nat);
                        assert(labels[idx as int] == perm@.docs[idx as int].label);
                    }
                    if dp.get_label() > 0 {
                        hits += 1;
                        let gained: u128 = (hits as u128 * UNIT as u128) / (pos as u128 + 1);
                        precision_total += gained;
                    }
                    pos += 1;
                },
                Err(_) => {
                    walking = false;
                },
            }
        }
        proof {
            lemma_reached_is(order, labels.len(), pos as nat);
            lemma_precision_bounds(labels, order, pos as nat);
            self.score_is_bounded(perm@);
        }
        if hits == 0 {
            0
        } else {
            (precision_total / hits as u128) as u32
        }
    }
}

impl MAP {
    /// The metric's name.
    pub fn to_string(&self) -> (name: String)
        ensures
            name@ == "MAP"@,
    {
        "MAP".to_string()
    }
}

} // verus!
