//! Change events: the probe emits `Add` and `Remove` of single endpoints so
//! the registry can be kept in sync without recomputing the full set.

use vstd::prelude::*;

use crate::endpoint::Endpoint;

verus! {

/// One increment of the endpoint set.
#[derive(Clone, Copy, PartialEq, Eq, Structural, Debug)]
pub enum Change {
    Add(Endpoint),
    Remove(Endpoint),
}

impl Change {
    /// The endpoint this change concerns.
    pub open spec fn endpoint(self) -> Endpoint {
        match self {
            Change::Add(e) => e,
            Change::Remove(e) => e,
        }
    }

    pub open spec fn is_add(self) -> bool {
        self matches Change::Add(_)
    }

    /// The endpoint this change concerns.
    pub fn target(&self) -> (e: Endpoint)
        ensures
            e == self.endpoint(),
    {
        match self {
            Change::Add(e) => *e,
            Change::Remove(e) => *e,
        }
    }
}

/// The endpoint set after one change is applied.
pub open spec fn apply_one(s: Set<Endpoint>, c: Change) -> Set<Endpoint> {
    match c {
        Change::Add(e) => s.insert(e),
        Change::Remove(e) => s.remove(e),
    }
}

/// The endpoint set after a sequence of changes is applied in order.
pub open spec fn apply_all(s: Set<Endpoint>, cs: Seq<Change>) -> Set<Endpoint>
    decreases cs.len(),
{
    if cs.len() == 0 {
        s
    } else {
        apply_all(apply_one(s, cs.first()), cs.drop_first())
    }
}

/// No two changes in the sequence concern the same endpoint.
pub open spec fn distinct_endpoints(cs: Seq<Change>) -> bool {
    forall|i: int, j: int|
        0 <= i < j < cs.len() ==> (#[trigger] cs[i]).endpoint() != (#[trigger] cs[j]).endpoint()
}

/// Applying `cs.push(c)` is applying `cs`, then `c`.
pub proof fn lemma_apply_all_push(s: Set<Endpoint>, cs: Seq<Change>, c: Change)
    ensures
        apply_all(s, cs.push(c)) == apply_one(apply_all(s, cs), c),
    decreases cs.len(),
{
    if cs.len() == 0 {
        assert(cs.push(c).first() == c);
        assert(cs.push(c).drop_first() =~= Seq::<Change>::empty());
        assert(apply_all(apply_one(s, c), Seq::<Change>::empty()) == apply_one(s, c));
        assert(apply_all(s, cs.push(c)) == apply_one(s, c));
        assert(apply_all(s, cs) == s);
    } else {
        assert(cs.push(c).first() == cs.first());
        assert(cs.push(c).drop_first() =~= cs.drop_first().push(c));
        lemma_apply_all_push(apply_one(s, cs.first()), cs.drop_first(), c);
        assert(apply_all(s, cs.push(c)) == apply_all(
            apply_one(s, cs.first()),
            cs.drop_first().push(c),
        ));
        assert(apply_all(s, cs) == apply_all(apply_one(s, cs.first()), cs.drop_first()));
    }
}

} // verus!
