//! The service probe: it owns the last-known endpoint set, diffs each new
//! resolution against it, and publishes the resulting change events into a
//! bounded sink, one at a time, replacing the set only once every change of a
//! tick has been accepted.

use vstd::prelude::*;

use crate::change::{apply_all, apply_one, distinct_endpoints, lemma_apply_all_push, Change};
use crate::endpoint::Endpoint;
use crate::endpoint_set::EndpointSet;

verus! {

/// The control state of one probe task.
#[derive(Clone, Copy, PartialEq, Eq, Structural, Debug)]
pub enum ProbePhase {
    Idle,
    Resolving,
    Publishing,
    Waiting,
    Stopped,
}

/// The subsequence of events concerning one endpoint, in emission order.
pub open spec fn events_for(s: Seq<Change>, e: Endpoint) -> Seq<Change>
    decreases s.len(),
{
    if s.len() == 0 {
        Seq::empty()
    } else {
        let rest = events_for(s.drop_last(), e);
        if s.last().endpoint() == e {
            rest.push(s.last())
        } else {
            rest
        }
    }
}

/// Adds stand at even positions and removes at odd ones: the events
/// alternate `Add, Remove, Add, Remove, …`, starting with `Add`.
pub open spec fn alternating(s: Seq<Change>) -> bool {
    forall|i: int| 0 <= i < s.len() ==> ((#[trigger] s[i]).is_add() <==> i % 2 == 0)
}

/// Appending one event extends the subsequence of exactly its endpoint.
pub proof fn lemma_events_for_push(s: Seq<Change>, c: Change, e: Endpoint)
    ensures
        c.endpoint() == e ==> events_for(s.push(c), e) == events_for(s, e).push(c),
        c.endpoint() != e ==> events_for(s.push(c), e) == events_for(s, e),
{
    assert(s.push(c).drop_last() =~= s);
    assert(s.push(c).last() == c);
}

/// A trace whose per-endpoint subsequences alternate, together with the set
/// of endpoints whose last event is an `Add`, stays that way when an event
/// of matching polarity is appended.
proof fn lemma_alternation_step(trace: Seq<Change>, applied: Set<Endpoint>, c: Change)
    requires
        forall|e: Endpoint| alternating(#[trigger] events_for(trace, e)),
        forall|e: Endpoint|
            applied.contains(e) <==> #[trigger] events_for(trace, e).len() % 2 == 1,
        c.is_add() ==> !applied.contains(c.endpoint()),
        !c.is_add() ==> applied.contains(c.endpoint()),
    ensures
        forall|e: Endpoint| alternating(#[trigger] events_for(trace.push(c), e)),
        forall|e: Endpoint|
            apply_one(applied, c).contains(e) <==> #[trigger] events_for(
                trace.push(c),
                e,
            ).len() % 2 == 1,
{
    assert forall|e: Endpoint| alternating(#[trigger] events_for(trace.push(c), e)) by {
        lemma_events_for_push(trace, c, e);
        if c.endpoint() == e {
            let before = events_for(trace, e);
            let after = before.push(c);
            assert forall|i: int| 0 <= i < after.len() implies ((#[trigger] after[i]).is_add()
                <==> i % 2 == 0) by {
                if i < before.len() {
                    assert(after[i] == before[i]);
                } else {
                    assert(after[i] == c);
                }
            }
        }
    }
    assert forall|e: Endpoint|
        apply_one(applied, c).contains(e) <==> #[trigger] events_for(
            trace.push(c),
            e,
        ).len() % 2 == 1 by {
        lemma_events_for_push(trace, c, e);
    }
}

/// The probe task's state: its phase, the last fully published endpoint set,
/// the set a tick is currently publishing toward, and the changes of that
/// tick not yet accepted by the sink. The ghost trace records every accepted
/// change in order; the ghost applied set is the one the trace describes.
pub struct ProbeState {
    phase: ProbePhase,
    committed: EndpointSet,
    target: EndpointSet,
    pending: Vec<Change>,
    trace: Ghost<Seq<Change>>,
    applied: Ghost<Set<Endpoint>>,
}

impl ProbeState {
    pub closed spec fn phase(&self) -> ProbePhase {
        self.phase
    }

    /// The last fully published endpoint set.
    pub closed spec fn committed_set(&self) -> Set<Endpoint> {
        self.committed.to_set()
    }

    /// The set the current tick is publishing toward.
    pub closed spec fn target_set(&self) -> Set<Endpoint> {
        self.target.to_set()
    }

    /// Changes of the current tick not yet accepted by the sink.
    pub closed spec fn pending(&self) -> Seq<Change> {
        self.pending@
    }

    /// Every change accepted by the sink so far, in order.
    pub closed spec fn trace(&self) -> Seq<Change> {
        self.trace@
    }

    /// The endpoint set described by the accepted trace.
    pub closed spec fn applied(&self) -> Set<Endpoint> {
        self.applied@
    }

    /// The stored endpoint sets hold no duplicates.
    pub closed spec fn sets_wf(&self) -> bool {
        self.committed.wf() && self.target.wf()
    }

    pub open spec fn wf(&self) -> bool {
        &&& self.sets_wf()
        &&& forall|e: Endpoint| alternating(#[trigger] events_for(self.trace(), e))
        &&& forall|e: Endpoint|
            self.applied().contains(e) <==> #[trigger] events_for(self.trace(), e).len() % 2
                == 1
        &&& distinct_endpoints(self.pending())
        &&& forall|i: int|
            0 <= i < self.pending().len() && (#[trigger] self.pending()[i]).is_add()
                ==> !self.applied().contains(self.pending()[i].endpoint())
        &&& forall|i: int|
            0 <= i < self.pending().len() && !(#[trigger] self.pending()[i]).is_add()
                ==> self.applied().contains(self.pending()[i].endpoint())
        &&& apply_all(self.applied(), self.pending()) == self.target_set()
        &&& (self.phase() == ProbePhase::Publishing ==> self.pending().len() > 0)
        &&& (self.phase() != ProbePhase::Publishing && self.phase() != ProbePhase::Stopped
            ==> self.pending().len() == 0 && self.applied() == self.committed_set())
    }

    /// The trace-dependent invariant clauses carry over to a state with the
    /// same trace and applied set.
    proof fn lemma_trace_clauses_congruent(pre: ProbeState, post: ProbeState)
        requires
            forall|e: Endpoint| alternating(#[trigger] events_for(pre.trace(), e)),
            forall|e: Endpoint|
                pre.applied().contains(e) <==> #[trigger] events_for(pre.trace(), e).len() % 2
                    == 1,
            post.trace@ == pre.trace@,
            post.applied@ == pre.applied@,
        ensures
            forall|e: Endpoint| alternating(#[trigger] events_for(post.trace(), e)),
            forall|e: Endpoint|
                post.applied().contains(e) <==> #[trigger] events_for(post.trace(), e).len() % 2
                    == 1,
    {
        assert(post.trace() == pre.trace());
        assert forall|e: Endpoint| alternating(#[trigger] events_for(post.trace(), e)) by {
            assert(alternating(events_for(pre.trace(), e)));
        }
        assert forall|e: Endpoint|
            post.applied().contains(e) <==> #[trigger] events_for(post.trace(), e).len() % 2
                == 1 by {
            assert(pre.applied().contains(e) <==> events_for(pre.trace(), e).len() % 2 == 1);
        }
    }

    /// A fresh probe: idle, with an empty known set and an empty trace.
    pub fn new() -> (r: ProbeState)
        ensures
            r.wf(),
            r.phase() == ProbePhase::Idle,
            r.trace() =~= Seq::<Change>::empty(),
            r.committed_set() =~= Set::<Endpoint>::empty(),
    {
        let r = ProbeState {
            phase: ProbePhase::Idle,
            committed: EndpointSet::new(),
            target: EndpointSet::new(),
            pending: Vec::new(),
            trace: Ghost(Seq::empty()),
            applied: Ghost(Set::empty()),
        };
        proof {
            assert forall|e: Endpoint| alternating(#[trigger] events_for(r.trace(), e)) by {
                assert(events_for(r.trace(), e) =~= Seq::<Change>::empty());
            }
            assert forall|e: Endpoint|
                r.applied().contains(e) <==> #[trigger] events_for(r.trace(), e).len() % 2
                    == 1 by {
                assert(events_for(r.trace(), e) =~= Seq::<Change>::empty());
            }
            assert(apply_all(r.applied(), r.pending()) == r.applied());
            assert(r.applied() =~= r.target_set());
            assert(r.applied() =~= r.committed_set());
            assert(r.wf());
        }
        r
    }

    /// `run()` was called: begin the first resolution.
    pub fn start(&mut self)
        requires
            old(self).wf(),
            old(self).phase() == ProbePhase::Idle,
        ensures
            final(self).wf(),
            final(self).phase() == ProbePhase::Resolving,
            final(self).trace() == old(self).trace(),
            final(self).committed_set() == old(self).committed_set(),
    {
        self.phase = ProbePhase::Resolving;
        proof {
            Self::lemma_trace_clauses_congruent(*old(self), *self);
            assert(self.wf());
        }
    }

    /// The inter-tick timer elapsed: begin the next resolution.
    pub fn tick(&mut self)
        requires
            old(self).wf(),
            old(self).phase() == ProbePhase::Waiting,
        ensures
            final(self).wf(),
            final(self).phase() == ProbePhase::Resolving,
            final(self).trace() == old(self).trace(),
            final(self).committed_set() == old(self).committed_set(),
    {
        self.phase = ProbePhase::Resolving;
        proof {
            Self::lemma_trace_clauses_congruent(*old(self), *self);
            assert(self.wf());
        }
    }

    /// The lookup failed (transiently or permanently) or timed out: the
    /// previous set is preserved and no change is emitted; the next tick
    /// retries.
    pub fn resolution_failed(&mut self)
        requires
            old(self).wf(),
            old(self).phase() == ProbePhase::Resolving,
        ensures
            final(self).wf(),
            final(self).phase() == ProbePhase::Waiting,
            final(self).trace() == old(self).trace(),
            final(self).pending() == old(self).pending(),
            final(self).committed_set() == old(self).committed_set(),
    {
        self.phase = ProbePhase::Waiting;
        proof {
            Self::lemma_trace_clauses_congruent(*old(self), *self);
            assert(self.wf());
        }
    }

    /// The lookup succeeded: diff the resolved set against the last known
    /// one and queue the minimal change-set. An empty diff commits at once;
    /// otherwise the probe publishes until every change is accepted.
    pub fn resolution_succeeded(&mut self, new_set: EndpointSet)
        requires
            old(self).wf(),
            old(self).phase() == ProbePhase::Resolving,
            new_set.wf(),
        ensures
            final(self).wf(),
            final(self).trace() == old(self).trace(),
            final(self).applied() == old(self).applied(),
            final(self).target_set() == new_set.to_set(),
            distinct_endpoints(final(self).pending()),
            forall|i: int|
                0 <= i < final(self).pending().len()
                    && (#[trigger] final(self).pending()[i]).is_add()
                    ==> new_set.to_set().contains(final(self).pending()[i].endpoint())
                    && !old(self).committed_set().contains(final(self).pending()[i].endpoint()),
            forall|i: int|
                0 <= i < final(self).pending().len()
                    && !(#[trigger] final(self).pending()[i]).is_add()
                    ==> old(self).committed_set().contains(final(self).pending()[i].endpoint())
                    && !new_set.to_set().contains(final(self).pending()[i].endpoint()),
            apply_all(old(self).committed_set(), final(self).pending()) == new_set.to_set(),
            old(self).committed_set() =~= new_set.to_set() ==> final(self).pending().len()
                == 0,
            final(self).pending().len() == 0 ==> final(self).phase() == ProbePhase::Waiting
                && final(self).committed_set() == new_set.to_set(),
            final(self).pending().len() > 0 ==> final(self).phase() == ProbePhase::Publishing
                && final(self).committed_set() == old(self).committed_set(),
    {
        let cs = diff(&self.committed, &new_set);
        if cs.len() == 0 {
            self.committed = new_set.duplicate();
            self.target = new_set;
            self.phase = ProbePhase::Waiting;
        } else {
            self.target = new_set;
            self.phase = ProbePhase::Publishing;
        }
        self.pending = cs;
        proof {
            Self::lemma_trace_clauses_congruent(*old(self), *self);
            assert(self.wf());
        }
    }

    /// The sink accepted the next queued change: record it on the trace and,
    /// when it was the last of its tick, replace the known set.
    pub fn change_accepted(&mut self) -> (c: Change)
        requires
            old(self).wf(),
            old(self).phase() == ProbePhase::Publishing,
        ensures
            final(self).wf(),
            c == old(self).pending()[0],
            final(self).pending() == old(self).pending().drop_first(),
            final(self).trace() == old(self).trace().push(c),
            final(self).applied() == apply_one(old(self).applied(), c),
            final(self).target_set() == old(self).target_set(),
            old(self).pending().len() > 1 ==> final(self).phase() == ProbePhase::Publishing
                && final(self).committed_set() == old(self).committed_set(),
            old(self).pending().len() == 1 ==> final(self).phase() == ProbePhase::Waiting
                && final(self).committed_set() == old(self).target_set(),
    {
        let c = self.pending.remove(0);
        proof {
            assert(self.pending@ =~= old(self).pending().drop_first());
            lemma_alternation_step(old(self).trace(), old(self).applied(), c);
        }
        self.trace = Ghost(self.trace@.push(c));
        self.applied = Ghost(apply_one(self.applied@, c));
        if self.pending.len() == 0 {
            self.committed = self.target.duplicate();
            self.phase = ProbePhase::Waiting;
        }
        proof {
            let pending0 = old(self).pending();
            let pending1 = self.pending@;
            let applied1 = self.applied@;
            assert(c == pending0.first());
            assert(apply_all(old(self).applied(), pending0) == apply_all(
                apply_one(old(self).applied(), c),
                pending0.drop_first(),
            ));
            assert forall|i: int|
                0 <= i < pending1.len() && (#[trigger] pending1[i]).is_add()
                    implies !applied1.contains(pending1[i].endpoint()) by {
                assert(pending1[i] == pending0[i + 1]);
                assert(pending0[i + 1].endpoint() != c.endpoint());
            }
            assert forall|i: int|
                0 <= i < pending1.len() && !(#[trigger] pending1[i]).is_add()
                    implies applied1.contains(pending1[i].endpoint()) by {
                assert(pending1[i] == pending0[i + 1]);
                assert(pending0[i + 1].endpoint() != c.endpoint());
            }
            if pending1.len() == 0 {
                assert(apply_all(applied1, pending1) == applied1);
            }
        }
        c
    }

    /// Cancellation observed: the probe is terminal; nothing more is
    /// emitted or committed.
    pub fn cancel(&mut self)
        requires
            old(self).wf(),
        ensures
            final(self).wf(),
            final(self).phase() == ProbePhase::Stopped,
            final(self).trace() == old(self).trace(),
            final(self).committed_set() == old(self).committed_set(),
    {
        self.phase = ProbePhase::Stopped;
        proof {
            Self::lemma_trace_clauses_congruent(*old(self), *self);
            assert(self.wf());
        }
    }

    /// The probe's current phase.
    pub fn current_phase(&self) -> (p: ProbePhase)
        ensures
            p == self.phase(),
    {
        self.phase
    }

    /// How many changes of the current tick still await acceptance.
    pub fn pending_len(&self) -> (n: usize)
        ensures
            n == self.pending().len(),
    {
        self.pending.len()
    }
}

/// For every emission trace of a probe and every endpoint, the accepted
/// events concerning that endpoint alternate `Add, Remove, Add, …`,
/// starting with `Add`.
pub proof fn lemma_trace_alternates(p: &ProbeState, e: Endpoint)
    requires
        p.wf(),
    ensures
        alternating(events_for(p.trace(), e)),
        events_for(p.trace(), e).len() > 0 ==> events_for(p.trace(), e)[0].is_add(),
{
}

/// The alternation holds of the full emission order as well: the accepted
/// trace followed by the changes still queued for the sink.
pub proof fn lemma_emission_alternates(p: &ProbeState, e: Endpoint)
    requires
        p.wf(),
    ensures
        alternating(events_for(p.trace() + p.pending(), e)),
{
    lemma_emission_alternates_rec(p.trace(), p.applied(), p.pending());
}

proof fn lemma_emission_alternates_rec(
    trace: Seq<Change>,
    applied: Set<Endpoint>,
    pending: Seq<Change>,
)
    requires
        forall|e: Endpoint| alternating(#[trigger] events_for(trace, e)),
        forall|e: Endpoint|
            applied.contains(e) <==> #[trigger] events_for(trace, e).len() % 2 == 1,
        distinct_endpoints(pending),
        forall|i: int|
            0 <= i < pending.len() && (#[trigger] pending[i]).is_add() ==> !applied.contains(
                pending[i].endpoint(),
            ),
        forall|i: int|
            0 <= i < pending.len() && !(#[trigger] pending[i]).is_add() ==> applied.contains(
                pending[i].endpoint(),
            ),
    ensures
        forall|e: Endpoint| alternating(#[trigger] events_for(trace + pending, e)),
    decreases pending.len(),
{
    if pending.len() == 0 {
        assert(trace + pending =~= trace);
    } else {
        let c = pending[0];
        lemma_alternation_step(trace, applied, c);
        let trace1 = trace.push(c);
        let applied1 = apply_one(applied, c);
        let pending1 = pending.drop_first();
        assert forall|i: int|
            0 <= i < pending1.len() && (#[trigger] pending1[i]).is_add()
                implies !applied1.contains(pending1[i].endpoint()) by {
            assert(pending1[i] == pending[i + 1]);
            assert(pending[i + 1].endpoint() != c.endpoint());
        }
        assert forall|i: int|
            0 <= i < pending1.len() && !(#[trigger] pending1[i]).is_add()
                implies applied1.contains(pending1[i].endpoint()) by {
            assert(pending1[i] == pending[i + 1]);
            assert(pending[i + 1].endpoint() != c.endpoint());
        }
        lemma_emission_alternates_rec(trace1, applied1, pending1);
        assert(trace1 + pending1 =~= trace + pending);
    }
}

/// The minimal change-set from `old_set` to `new_set`: an `Add` for each
/// endpoint only in `new_set`, then a `Remove` for each endpoint only in
/// `old_set`; nothing for endpoints in both, and nothing twice.
pub fn diff(old_set: &EndpointSet, new_set: &EndpointSet) -> (cs: Vec<Change>)
    requires
        old_set.wf(),
        new_set.wf(),
    ensures
        distinct_endpoints(cs@),
        forall|i: int|
            0 <= i < cs@.len() && (#[trigger] cs@[i]).is_add() ==> new_set@.contains(
                cs@[i].endpoint(),
            ) && !old_set@.contains(cs@[i].endpoint()),
        forall|i: int|
            0 <= i < cs@.len() && !(#[trigger] cs@[i]).is_add() ==> old_set@.contains(
                cs@[i].endpoint(),
            ) && !new_set@.contains(cs@[i].endpoint()),
        apply_all(old_set.to_set(), cs@) == new_set.to_set(),
        old_set.to_set() =~= new_set.to_set() ==> cs@.len() == 0,
{
    let mut cs: Vec<Change> = Vec::new();
    let mut i: usize = 0;
    while i < new_set.len()
        invariant
            old_set.wf(),
            new_set.wf(),
            i <= new_set@.len(),
            forall|k: int| 0 <= k < cs@.len() ==> (#[trigger] cs@[k]).is_add(),
            forall|k: int|
                #![trigger cs@[k]]
                0 <= k < cs@.len() ==> exists|m: int|
                    #![trigger new_set@[m]]
                    0 <= m < i && cs@[k] == Change::Add(new_set@[m]),
            forall|k: int|
                0 <= k < cs@.len() ==> new_set@.contains((#[trigger] cs@[k]).endpoint())
                    && !old_set@.contains(cs@[k].endpoint()),
            distinct_endpoints(cs@),
            apply_all(old_set.to_set(), cs@) =~= old_set.to_set().union(
                new_set@.take(i as int).to_set(),
            ),
        decreases new_set@.len() - i,
    {
        let e = new_set.get(i);
        let ghost prev = cs@;
        if !old_set.contains(&e) {
            cs.push(Change::Add(e));
            proof {
                assert(new_set@.contains(new_set@[i as int]));
                assert forall|k: int|
                    0 <= k < prev.len() implies (#[trigger] prev[k]).endpoint()
                        != e by {
                    let m = choose|m: int| 0 <= m < i && prev[k] == Change::Add(new_set@[m]);
                    assert(new_set@[m] != new_set@[i as int]);
                }
                lemma_apply_all_push(old_set.to_set(), prev, Change::Add(e));
            }
        }
        proof {
            broadcast use vstd::seq_lib::group_seq_properties;

            assert(new_set@.take(i + 1) =~= new_set@.take(i as int).push(new_set@[i as int]));
            assert(apply_all(old_set.to_set(), cs@) =~= old_set.to_set().union(
                new_set@.take(i + 1).to_set(),
            ));
        }
        i += 1;
    }
    proof {
        assert(new_set@.take(new_set@.len() as int) =~= new_set@);
    }
    let ghost adds_only = cs@;
    let mut j: usize = 0;
    while j < old_set.len()
        invariant
            old_set.wf(),
            new_set.wf(),
            j <= old_set@.len(),
            cs@.len() >= adds_only.len(),
            cs@.take(adds_only.len() as int) == adds_only,
            forall|k: int| 0 <= k < adds_only.len() ==> (#[trigger] cs@[k]).is_add(),
            forall|k: int| adds_only.len() <= k < cs@.len() ==> !(#[trigger] cs@[k]).is_add(),
            forall|k: int|
                #![trigger cs@[k]]
                adds_only.len() <= k < cs@.len() ==> exists|m: int|
                    #![trigger old_set@[m]]
                    0 <= m < j && cs@[k] == Change::Remove(old_set@[m]),
            forall|k: int|
                0 <= k < cs@.len() && (#[trigger] cs@[k]).is_add() ==> new_set@.contains(
                    cs@[k].endpoint(),
                ) && !old_set@.contains(cs@[k].endpoint()),
            forall|k: int|
                0 <= k < cs@.len() && !(#[trigger] cs@[k]).is_add() ==> old_set@.contains(
                    cs@[k].endpoint(),
                ) && !new_set@.contains(cs@[k].endpoint()),
            distinct_endpoints(cs@),
            apply_all(old_set.to_set(), cs@) =~= old_set.to_set().union(
                new_set.to_set(),
            ).difference(old_set@.take(j as int).to_set().difference(new_set.to_set())),
        decreases old_set@.len() - j,
    {
        let e = old_set.get(j);
        let ghost prev = cs@;
        if !new_set.contains(&e) {
            cs.push(Change::Remove(e));
            proof {
                assert(old_set@.contains(old_set@[j as int]));
                assert forall|k: int|
                    0 <= k < prev.len() implies (#[trigger] prev[k]).endpoint()
                        != e by {
                    if prev[k].is_add() {
                        assert(!old_set@.contains(prev[k].endpoint()));
                    } else {
                        let m = choose|m: int|
                            0 <= m < j && prev[k] == Change::Remove(old_set@[m]);
                        assert(old_set@[m] != old_set@[j as int]);
                    }
                }
                lemma_apply_all_push(old_set.to_set(), prev, Change::Remove(e));
                assert(cs@.take(adds_only.len() as int) =~= prev.take(adds_only.len() as int));
            }
        }
        proof {
            broadcast use vstd::seq_lib::group_seq_properties;

            assert(old_set@.take(j + 1) =~= old_set@.take(j as int).push(old_set@[j as int]));
            assert(apply_all(old_set.to_set(), cs@) =~= old_set.to_set().union(
                new_set.to_set(),
            ).difference(old_set@.take(j + 1).to_set().difference(new_set.to_set())));
        }
        j += 1;
    }
    proof {
        assert(old_set@.take(old_set@.len() as int) =~= old_set@);
        assert(old_set.to_set().union(new_set.to_set()).difference(
            old_set.to_set().difference(new_set.to_set()),
        ) =~= new_set.to_set());
        if old_set.to_set() =~= new_set.to_set() {
            if cs@.len() > 0 {
                assert(old_set@.contains(cs@[0].endpoint()) == old_set.to_set().contains(
                    cs@[0].endpoint(),
                ));
                assert(new_set@.contains(cs@[0].endpoint()) == new_set.to_set().contains(
                    cs@[0].endpoint(),
                ));
            }
        }
    }
    cs
}

} // verus!
