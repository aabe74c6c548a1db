//! Rank lists and candidate orderings of them.
use vstd::prelude::*;
use crate::datapoint::{DataPoint, DataPointView};
use crate::error::LtrError;

verus! {

/// The documents retrieved for one query, in the order of their retrieval.
#[derive(Debug, Clone)]
pub struct RankList {
    points: Vec<DataPoint>,
}

impl View for RankList {
    type V = Seq<DataPointView>;

    closed spec fn view(&self) -> Seq<DataPointView> {
        self.points@.map_values(|dp: DataPoint| dp@)
    }
}

/// Whether all documents of a list belong to one query.
pub open spec fn shares_query(docs: Seq<DataPointView>) -> bool {
    forall|p: int| 0 <= p < docs.len() ==> (#[trigger] docs[p]).query_id == docs[0].query_id
}

/// The relevance labels of a list of documents, position by position.
pub open spec fn labels_of(docs: Seq<DataPointView>) -> Seq<nat> {
    docs.map_values(|dp: DataPointView| dp.label)
}

impl RankList {
    /// Takes ownership of the documents, keeping their order.
    pub fn new(points: Vec<DataPoint>) -> (list: RankList)
        ensures
            list@ == points@.map_values(|dp: DataPoint| dp@),
    {
        RankList { points }
    }

    /// The number of documents.
    pub fn len(&self) -> (n: usize)
        ensures
            n == self@.len(),
    {
        self.points.len()
    }

    /// Whether the list holds no document.
    pub fn is_empty(&self) -> (empty: bool)
        ensures
            empty == (self@.len() == 0),
    {
        self.points.len() == 0
    }

    /// Whether the list is fit for training: it holds at least one document
    /// and all its documents belong to one query.
    pub fn is_trainable(&self) -> (fit: bool)
        ensures
            fit == (self@.len() > 0 && shares_query(self@)),
    {
        let n = self.points.len();
        if n == 0 {
            return false;
        }
        let query_id = self.points[0].get_query_id();
        let mut i: usize = 1;
        while i < n
            invariant
                1 <= i <= n,
                n == self.points@.len(),
                query_id == self@[0].query_id,
                forall|p: int| 0 <= p < i ==> (#[trigger] self@[p]).query_id == query_id,
            decreases n - i,
        {
            if self.points[i].get_query_id() != query_id {
                assert(self@[i as int].query_id != self@[0].query_id);
                return false;
            }
            i += 1;
        }
        true
    }

    /// The document at position `index`; `IndexError` exactly when `index` is
    /// outside `[0, len)`.
    pub fn get(&self, index: usize) -> (found: Result<&DataPoint, LtrError>)
        ensures
            index < self@.len() ==> found.is_ok() && found.unwrap()@ == self@[index as int],
            index >= self@.len() ==> found == Err::<&DataPoint, LtrError>(LtrError::IndexError),
    {
        if index < self.points.len() {
            Ok(&self.points[index])
        } else {
            Err(LtrError::IndexError)
        }
    }
}

/// One candidate ranking of a rank list: the list, borrowed, and the order in
/// which its documents are presented.
#[derive(Debug, Clone)]
pub struct RankListPermutation<'a> {
    /// Positions into `ranklist`, best document first.
    pub permutation: Vec<usize>,
    /// The list being ranked.
    pub ranklist: &'a RankList,
}

/// What a [`RankListPermutation`] is, as mathematical values.
pub struct PermutationView {
    /// The documents of the borrowed list.
    pub docs: Seq<DataPointView>,
    /// The order in which they are presented.
    pub order: Seq<nat>,
}

impl<'a> View for RankListPermutation<'a> {
    type V = PermutationView;

    open spec fn view(&self) -> PermutationView {
        PermutationView {
            docs: self.ranklist@,
            order: self.permutation@.map_values(|i: usize| i as nat),
        }
    }
}

/// Whether `order` names every position of `[0, len)` exactly once.
pub open spec fn is_rearrangement(order: Seq<nat>, len: nat) -> bool {
    &&& order.len() == len
    &&& forall|p: int| 0 <= p < order.len() ==> #[trigger] order[p] < len
    &&& forall|p: int, q: int| 0 <= p < q < order.len() ==> order[p] != order[q]
}

impl<'a> RankListPermutation<'a> {
    /// The well-formedness that a ranking is expected to have: its order is a
    /// rearrangement of the positions of its list.
    pub open spec fn well_formed(&self) -> bool {
        is_rearrangement(self@.order, self@.docs.len())
    }

    /// The ranking that presents the documents in their order in the list.
    pub fn identity(ranklist: &'a RankList) -> (perm: RankListPermutation<'a>)
        ensures
            perm@.docs == ranklist@,
            perm@.order == Seq::new(ranklist@.len(), |p: int| p as nat),
            perm.well_formed(),
    {
        let n = ranklist.len();
        let mut order: Vec<usize> = Vec::new();
        let mut i: usize = 0;
        while i < n
            invariant
                i <= n,
                order@.len() == i,
                forall|p: int| 0 <= p < i ==> order@[p] == p,
            decreases n - i,
        {
            order.push(i);
            i += 1;
        }
        let perm = RankListPermutation { permutation: order, ranklist };
        assert(perm@.order =~= Seq::new(ranklist@.len(), |p: int| p as nat));
        perm
    }
}

} // verus!
