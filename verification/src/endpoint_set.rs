//! The probe's private view of the service: a set of endpoints with unique
//! `(address, port)` keys. The empty set is valid.

use vstd::prelude::*;

use crate::endpoint::Endpoint;

verus! {

/// A set of endpoints with unique keys, held in insertion order.
#[derive(Debug)]
pub struct EndpointSet {
    eps: Vec<Endpoint>,
}

impl EndpointSet {
    /// The endpoints in insertion order.
    pub closed spec fn view(&self) -> Seq<Endpoint> {
        self.eps@
    }

    /// No endpoint occurs twice.
    pub open spec fn wf(&self) -> bool {
        forall|i: int, j: int| 0 <= i < j < self@.len() ==> self@[i] != self@[j]
    }

    /// The endpoints as a mathematical set.
    pub open spec fn to_set(&self) -> Set<Endpoint> {
        self@.to_set()
    }

    pub fn new() -> (r: EndpointSet)
        ensures
            r@ =~= Seq::<Endpoint>::empty(),
            r.wf(),
    {
        EndpointSet { eps: Vec::new() }
    }

    pub fn len(&self) -> (n: usize)
        ensures
            n == self@.len(),
    {
        self.eps.len()
    }

    pub fn get(&self, i: usize) -> (e: Endpoint)
        requires
            i < self@.len(),
        ensures
            e == self@[i as int],
    {
        self.eps[i]
    }

    pub fn contains(&self, e: &Endpoint) -> (r: bool)
        ensures
            r == self@.contains(*e),
    {
        let mut i: usize = 0;
        while i < self.eps.len()
            invariant
                i <= self.eps.len(),
                forall|k: int| 0 <= k < i ==> self.eps@[k] != *e,
            decreases self.eps.len() - i,
        {
            if self.eps[i] == *e {
                return true;
            }
            i += 1;
        }
        false
    }

    /// Add an endpoint unless it is already present; duplicates coalesce.
    pub fn insert(&mut self, e: Endpoint)
        requires
            old(self).wf(),
        ensures
            final(self).wf(),
            old(self)@.contains(e) ==> final(self)@ == old(self)@,
            !old(self)@.contains(e) ==> final(self)@ == old(self)@.push(e),
            final(self).to_set() =~= old(self).to_set().insert(e),
    {
        if !self.contains(&e) {
            self.eps.push(e);
        }
        proof {
            broadcast use vstd::seq_lib::group_seq_properties;

            assert(self.to_set() =~= old(self).to_set().insert(e));
        }
    }

    /// An element-for-element copy.
    pub fn duplicate(&self) -> (r: EndpointSet)
        ensures
            r@ == self@,
    {
        let mut eps: Vec<Endpoint> = Vec::new();
        let mut i: usize = 0;
        while i < self.eps.len()
            invariant
                i <= self.eps.len(),
                eps@ =~= self.eps@.take(i as int),
            decreases self.eps.len() - i,
        {
            eps.push(self.eps[i]);
            i += 1;
        }
        proof {
            assert(eps@ =~= self.eps@);
        }
        EndpointSet { eps }
    }

    /// Form a set from a list of endpoints, coalescing duplicates.
    pub fn from_vec(v: &Vec<Endpoint>) -> (r: EndpointSet)
        ensures
            r.wf(),
            r.to_set() =~= v@.to_set(),
    {
        let mut r = EndpointSet::new();
        let mut i: usize = 0;
        while i < v.len()
            invariant
                i <= v.len(),
                r.wf(),
                r.to_set() =~= v@.take(i as int).to_set(),
            decreases v.len() - i,
        {
            r.insert(v[i]);
            proof {
                broadcast use vstd::seq_lib::group_seq_properties;

                assert(v@.take(i + 1) =~= v@.take(i as int).push(v@[i as int]));
                assert(v@.take(i + 1).to_set() =~= v@.take(i as int).to_set().insert(
                    v@[i as int],
                ));
            }
            i += 1;
        }
        proof {
            assert(v@.take(v@.len() as int) =~= v@);
        }
        r
    }
}

} // verus!
