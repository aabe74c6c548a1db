//! The learned model: a weighted combination of weak rankers.
use vstd::prelude::*;
use crate::datapoint::{DataPoint, DataPointView};
use crate::ranker::{Ranker, WeakRanker};

pub mod adarank;

verus! {

/// One weak ranker of an ensemble with its confidence weight, in millionths.
#[derive(Debug, Clone, Copy, PartialEq, Eq, Structural)]
pub struct Member {
    /// The weak ranker.
    pub ranker: WeakRanker,
    /// Its confidence weight.
    pub alpha: i32,
}

/// The sum of `alpha * score` over the first `n` members.
pub open spec fn weighted_sum(members: Seq<Member>, dp: DataPointView, n: nat) -> int
    decreases n,
{
    if n == 0 {
        0
    } else {
        weighted_sum(members, dp, (n - 1) as nat) + members[n - 1].alpha * members[n
            - 1].ranker.score(dp)
    }
}

/// An ordered list of weak rankers with their weights. Its prediction is the
/// weighted sum of theirs, and so carries twelve decimal places: weight and
/// score are both in millionths.
#[derive(Debug)]
pub struct Ensemble {
    members: Vec<Member>,
}

impl View for Ensemble {
    type V = Seq<Member>;

    closed spec fn view(&self) -> Seq<Member> {
        self.members@
    }
}

impl Ensemble {
    /// The most members an ensemble can hold.
    pub open spec fn capacity() -> nat {
        u32::MAX as nat
    }

    /// An ensemble holds at most `capacity()` members.
    #[verifier::type_invariant]
    closed spec fn within_capacity(&self) -> bool {
        self.members@.len() <= u32::MAX
    }


    /// The empty ensemble, which predicts 0 for every document.
    pub fn new() -> (ensemble: Ensemble)
        ensures
            ensemble@ == Seq::<Member>::empty(),
    {
        Ensemble { members: Vec::new() }
    }

    /// The number of members.
    pub fn len(&self) -> (n: usize)
        ensures
            n == self@.len(),
    {
        self.members.len()
    }

    /// The member at position `index`, if there is one.
    pub fn get(&self, index: usize) -> (member: Option<Member>)
        ensures
            index < self@.len() ==> member == Some(self@[index as int]),
            index >= self@.len() ==> member.is_none(),
    {
        if index < self.members.len() {
            Some(self.members[index])
        } else {
            None
        }
    }

    /// The members, copied in order.
    fn members_copy(&self) -> (members: Vec<Member>)
        ensures
            members@ == self@,
    {
        let n = self.members.len();
        let mut members: Vec<Member> = Vec::new();
        let mut i: usize = 0;
        while i < n
            invariant
                i <= n,
                n == self.members@.len(),
                members@ == self.members@.subrange(0, i as int),
            decreases n - i,
        {
            members.push(self.members[i]);
            assert(members@ =~= self.members@.subrange(0, i + 1));
            i += 1;
        }
        assert(self.members@.subrange(0, n as int) =~= self.members@);
        members
    }

    /// The ensemble that holds the members of this one and, behind them, one
    /// more weak ranker with its weight. An ensemble is never changed in
    /// place.
    pub fn extended(&self, ranker: WeakRanker, alpha: i32) -> (grown: Ensemble)
        requires
            self@.len() < Self::capacity(),
        ensures
            grown@ == self@.push((Member { ranker, alpha })),
    {
        proof {
            use_type_invariant(self);
        }
        let mut members = self.members_copy();
        members.push(Member { ranker, alpha });
        Ensemble { members }
    }

    /// The weighted sum of the members' scores for `dp`.
    fn weigh(&self, dp: &DataPoint) -> (total: i128)
        ensures
            total == weighted_sum(self@, dp@, self@.len()),
    {
        proof {
            use_type_invariant(self);
        }
        let n = self.members.len();
        let mut total: i128 = 0;
        let mut i: usize = 0;
        while i < n
            invariant
                i <= n,
                n == self@.len(),
                n <= u32::MAX,
                total == weighted_sum(self@, dp@, i as nat),
                -(i * 0x4000_0000_0000_0000_0000_0000) <= total <= i
                    * 0x4000_0000_0000_0000_0000_0000,
            decreases n - i,
        {
            let member = self.members[i];
            let value = member.ranker.feature_value(dp);
            let alpha = member.alpha;
            assert(-0x4000_0000_0000_0000_0000_0000 <= alpha * value
                <= 0x4000_0000_0000_0000_0000_0000) by (nonlinear_arith)
                requires
                    -0x8000_0000 <= alpha <= 0x8000_0000,
                    -0x8000_0000_0000_0000 <= value <= 0x8000_0000_0000_0000,
            ;
            assert((i + 1) * 0x4000_0000_0000_0000_0000_0000 == i
                * 0x4000_0000_0000_0000_0000_0000 + 0x4000_0000_0000_0000_0000_0000)
                by (nonlinear_arith);
            assert((i + 1) * 0x4000_0000_0000_0000_0000_0000 <= 0x1_0000_0000
                * 0x4000_0000_0000_0000_0000_0000) by (nonlinear_arith)
                requires
                    i + 1 <= 0x1_0000_0000,
            ;
            let term: i128 = alpha as i128 * value as i128;
            total = total + term;
            i += 1;
        }
        total
    }
}

impl Clone for Ensemble {
    fn clone(&self) -> (copy: Ensemble)
        ensures
            copy@ == self@,
    {
        proof {
            use_type_invariant(self);
        }
        Ensemble { members: self.members_copy() }
    }
}

impl Ranker for Ensemble {
    open spec fn score(&self, dp: DataPointView) -> int {
        weighted_sum(self@, dp, self@.len())
    }

    fn predict(&self, dp: &DataPoint) -> (score: i128) {
        self.weigh(dp)
    }
}

} // verus!
