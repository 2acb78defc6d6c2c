//! The abstract state of liveness analysis: the set of variables live at a
//! program point, joined by union.
use vstd::prelude::*;
use std::collections::BTreeSet;
use vstd::std_specs::iter::IteratorSpec;

verus! {

broadcast use vstd::std_specs::btree::group_btree_axioms;

/// A local variable, by the number of its interned name.
pub type Var = u64;

/// Whether a join changed the state it was applied to.
#[derive(Clone, Copy, Debug, PartialEq, Eq, Structural)]
pub enum JoinResult {
    Unchanged,
    Changed,
}

/// The variables live at a program point.
#[derive(Clone, Debug, Eq, PartialEq)]
pub struct LivenessState(pub BTreeSet<Var>);

impl LivenessState {
    /// The state with no live variable.
    pub fn initial() -> (r: Self)
        ensures
            r.0@ == Set::<Var>::empty(),
    {
        LivenessState(BTreeSet::new())
    }

    /// Adds every variable of `other`.
    pub fn extend(&mut self, other: &Self)
        ensures
            final(self).0@ == old(self).0@.union(other.0@),
    {
        let ghost start = self.0@;
        let keys = other.0.iter();
        assert(keys.remaining().unref().to_set() == other.0@);
        for x in it: keys
            invariant
                it.seq().unref().to_set() == other.0@,
                self.0@ == start.union(it.seq().unref().take(it.index() as int).to_set()),
                it.index() == it.seq().len() ==> self.0@ == start.union(other.0@),
        {
            let ghost k = it.index() as int;
            self.0.insert(*x);
            assert(it.seq().unref().take(k + 1) =~= it.seq().unref().take(k).push(*x));
            proof {
                it.seq().unref().take(k).lemma_push_to_set_commute(*x);
            }
            assert(k + 1 == it.seq().len() ==> it.seq().unref().take(k + 1) =~= it.seq().unref());
        }
    }

    /// Joins `other` into `self` by union, and says whether `self` grew.
    pub fn join(&mut self, other: &Self) -> (r: JoinResult)
        ensures
            final(self).0@ == old(self).0@.union(other.0@),
            r == (if other.0@.subset_of(old(self).0@) { JoinResult::Unchanged } else { JoinResult::Changed }),
    {
        let mut grows = false;
        let keys = other.0.iter();
        assert(keys.remaining().unref().to_set() == other.0@);
        for x in it: keys
            invariant
                it.seq().unref().to_set() == other.0@,
                grows == !it.seq().unref().take(it.index() as int).to_set().subset_of(self.0@),
                it.index() == it.seq().len() ==> (grows <==> !other.0@.subset_of(self.0@)),
        {
            let ghost k = it.index() as int;
            if !self.0.contains(x) {
                grows = true;
            }
            assert(it.seq().unref().take(k + 1) =~= it.seq().unref().take(k).push(*x));
            proof {
                it.seq().unref().take(k).lemma_push_to_set_commute(*x);
            }
            assert(k + 1 == it.seq().len() ==> it.seq().unref().take(k + 1) =~= it.seq().unref());
        }
        self.extend(other);
        if grows {
            JoinResult::Changed
        } else {
            JoinResult::Unchanged
        }
    }
}

} // verus!
