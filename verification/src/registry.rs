//! The balanced channel's registry: a map from endpoint to sub-channel,
//! kept in sync with the probe's change stream by the updater.

use vstd::prelude::*;

use crate::change::{apply_one, Change};
use crate::endpoint::Endpoint;
use crate::probe::{ProbePhase, ProbeState};

verus! {

/// The readiness of one sub-channel's transport.
#[derive(Clone, Copy, PartialEq, Eq, Structural, Debug)]
pub enum ChannelState {
    NotReady,
    Ready,
    TransientFailure,
}

/// One transport connection to one endpoint: its readiness and its load
/// metric (the number of in-flight requests), plus a creation stamp that
/// tells apart two sub-channels built for the same endpoint at different
/// times.
#[derive(Clone, Copy, PartialEq, Eq, Structural, Debug)]
pub struct SubChannel {
    pub state: ChannelState,
    pub load: u64,
    pub id: u64,
}

/// One registry slot: an endpoint key and its sub-channel.
#[derive(Clone, Copy, PartialEq, Eq, Structural, Debug)]
pub struct Entry {
    pub key: Endpoint,
    pub chan: SubChannel,
}

/// Whether some entry of `s` has key `e`.
pub open spec fn has_key(s: Seq<Entry>, e: Endpoint) -> bool {
    exists|i: int| 0 <= i < s.len() && (#[trigger] s[i]).key == e
}

/// The set of keys of `s`.
pub open spec fn key_set(s: Seq<Entry>) -> Set<Endpoint> {
    Set::new(|e: Endpoint| has_key(s, e))
}

/// The index of the entry of `s` keyed by `e`, where there is one.
pub open spec fn index_of_key(s: Seq<Entry>, e: Endpoint) -> int {
    choose|i: int| 0 <= i < s.len() && (#[trigger] s[i]).key == e
}

/// The registry contents after one change, as a function of the entries
/// and of the creation stamp a fresh sub-channel would take.
pub open spec fn spec_apply(s: Seq<Entry>, fresh_id: u64, c: Change) -> Seq<Entry> {
    match c {
        Change::Add(e) => if has_key(s, e) {
            s
        } else {
            s.push(
                Entry {
                    key: e,
                    chan: SubChannel { state: ChannelState::NotReady, load: 0, id: fresh_id },
                },
            )
        },
        Change::Remove(e) => if has_key(s, e) {
            s.remove(index_of_key(s, e))
        } else {
            s
        },
    }
}

/// Applying `Add(e)` twice leaves the registry exactly as applying it
/// once: the first application registers `e`, and an `Add` of a known
/// endpoint changes nothing, whatever stamp a second insertion would
/// have drawn.
pub proof fn lemma_add_idempotent(s: Seq<Entry>, id1: u64, id2: u64, e: Endpoint)
    ensures
        spec_apply(spec_apply(s, id1, Change::Add(e)), id2, Change::Add(e)) == spec_apply(
            s,
            id1,
            Change::Add(e),
        ),
{
    let s1 = spec_apply(s, id1, Change::Add(e));
    if !has_key(s, e) {
        assert(s1[s1.len() - 1].key == e);
        assert(has_key(s1, e));
    }
}

/// Applying `Remove(e)` to a registry that does not contain `e` is a
/// no-op.
pub proof fn lemma_remove_absent_noop(s: Seq<Entry>, id: u64, e: Endpoint)
    requires
        !has_key(s, e),
    ensures
        spec_apply(s, id, Change::Remove(e)) == s,
{
}

/// The registry of live sub-channels, keyed by endpoint; each insertion
/// takes a fresh creation stamp.
pub struct Registry {
    entries: Vec<Entry>,
    next_id: u64,
}

impl Registry {
    /// The entries in insertion order.
    pub closed spec fn view(&self) -> Seq<Entry> {
        self.entries@
    }

    pub closed spec fn next_id(&self) -> u64 {
        self.next_id
    }

    /// No two sub-channels share an endpoint key, and every creation stamp
    /// was drawn below the next one.
    pub open spec fn wf(&self) -> bool {
        &&& forall|i: int, j: int|
            0 <= i < j < self@.len() ==> (#[trigger] self@[i]).key != (#[trigger] self@[j]).key
        &&& forall|i: int| 0 <= i < self@.len() ==> (#[trigger] self@[i]).chan.id < self.next_id()
    }

    pub open spec fn keys(&self) -> Set<Endpoint> {
        key_set(self@)
    }

    pub fn new() -> (r: Registry)
        ensures
            r.wf(),
            r@ =~= Seq::<Entry>::empty(),
            r.next_id() == 0,
    {
        Registry { entries: Vec::new(), next_id: 0 }
    }

    pub fn len(&self) -> (n: usize)
        ensures
            n == self@.len(),
    {
        self.entries.len()
    }

    pub fn get(&self, i: usize) -> (en: Entry)
        requires
            i < self@.len(),
        ensures
            en == self@[i as int],
    {
        self.entries[i]
    }

    /// The index of the entry keyed by `e`, if any.
    fn find(&self, e: &Endpoint) -> (r: Option<usize>)
        ensures
            match r {
                Some(i) => i < self@.len() && self@[i as int].key == *e,
                None => !has_key(self@, *e),
            },
    {
        let mut i: usize = 0;
        while i < self.entries.len()
            invariant
                i <= self.entries.len(),
                forall|k: int| 0 <= k < i ==> (#[trigger] self.entries@[k]).key != *e,
            decreases self.entries.len() - i,
        {
            if self.entries[i].key == *e {
                return Some(i);
            }
            i += 1;
        }
        None
    }

    /// Whether a sub-channel for `e` is registered.
    pub fn contains(&self, e: &Endpoint) -> (r: bool)
        ensures
            r == self.keys().contains(*e),
    {
        self.find(e).is_some()
    }

    /// The registered entry for `e`, if any.
    pub fn lookup(&self, e: &Endpoint) -> (r: Option<Entry>)
        ensures
            match r {
                Some(en) => en.key == *e && exists|i: int|
                    0 <= i < self@.len() && #[trigger] self@[i] == en,
                None => !has_key(self@, *e),
            },
    {
        match self.find(e) {
            Some(i) => {
                let en = self.entries[i];
                proof {
                    assert(self@[i as int] == en);
                }
                Some(en)
            },
            None => None,
        }
    }

    /// Apply one change event from the probe stream.
    ///
    /// `Add` of a known endpoint and `Remove` of an unknown one are no-ops;
    /// a fresh sub-channel starts `NotReady` with no load; a removed one
    /// disappears with its slot, the other entries keeping their order.
    pub fn apply_change(&mut self, c: Change)
        requires
            old(self).wf(),
            old(self).next_id() < u64::MAX,
        ensures
            final(self).wf(),
            final(self).keys() =~= apply_one(old(self).keys(), c),
            final(self).next_id() <= old(self).next_id() + 1,
            final(self)@ == spec_apply(old(self)@, old(self).next_id(), c),
            match c {
                Change::Add(e) => {
                    if has_key(old(self)@, e) {
                        final(self)@ == old(self)@ && final(self).next_id() == old(self).next_id()
                    } else {
                        final(self)@ == old(self)@.push(
                            (Entry {
                                key: e,
                                chan: SubChannel {
                                    state: ChannelState::NotReady,
                                    load: 0,
                                    id: old(self).next_id(),
                                },
                            }),
                        ) && final(self).next_id() == old(self).next_id() + 1
                    }
                },
                Change::Remove(e) => {
                    if has_key(old(self)@, e) {
                        (exists|i: int|
                            0 <= i < old(self)@.len() && old(self)@[i].key == e
                                && final(self)@ == old(self)@.remove(i)) && final(self).next_id()
                            == old(self).next_id()
                    } else {
                        final(self)@ == old(self)@ && final(self).next_id() == old(self).next_id()
                    }
                },
            },
    {
        match c {
            Change::Add(e) => {
                if self.find(&e).is_none() {
                    let chan = SubChannel { state: ChannelState::NotReady, load: 0, id: self.next_id };
                    self.entries.push(Entry { key: e, chan });
                    self.next_id = self.next_id + 1;
                }
                proof {
                    assert forall|x: Endpoint|
                        has_key(self@, x) == apply_one(old(self).keys(), c).contains(x) by {
                        if has_key(self@, x) {
                            let k = choose|k: int|
                                0 <= k < self@.len() && (#[trigger] self@[k]).key == x;
                            if k < old(self)@.len() {
                                assert(old(self)@[k].key == x);
                            }
                        }
                        if apply_one(old(self).keys(), c).contains(x) {
                            if has_key(old(self)@, x) {
                                let k = choose|k: int|
                                    0 <= k < old(self)@.len()
                                        && (#[trigger] old(self)@[k]).key == x;
                                assert(self@[k].key == x);
                            } else {
                                assert(self@[self@.len() - 1].key == x);
                            }
                        }
                    }
                    assert(self.keys() =~= apply_one(old(self).keys(), c));
                }
            },
            Change::Remove(e) => {
                match self.find(&e) {
                    Some(i) => {
                        self.entries.remove(i);
                        proof {
                            assert forall|x: Endpoint|
                                has_key(self@, x) == apply_one(old(self).keys(), c).contains(
                                    x,
                                ) by {
                                if has_key(self@, x) {
                                    let k = choose|k: int|
                                        0 <= k < self@.len() && (#[trigger] self@[k]).key == x;
                                    if k < i {
                                        assert(old(self)@[k].key == x);
                                    } else {
                                        assert(old(self)@[k + 1].key == x);
                                    }
                                }
                                if apply_one(old(self).keys(), c).contains(x) {
                                    let k = choose|k: int|
                                        0 <= k < old(self)@.len()
                                            && (#[trigger] old(self)@[k]).key == x;
                                    if k < i {
                                        assert(self@[k].key == x);
                                    } else {
                                        assert(k != i);
                                        assert(self@[k - 1].key == x);
                                    }
                                }
                            }
                            assert(self.keys() =~= apply_one(old(self).keys(), c));
                            assert(old(self)@[i as int].key == e);
                            let i2 = index_of_key(old(self)@, e);
                            assert(old(self)@[i2].key == e);
                            assert(i2 == i as int);
                        }
                    },
                    None => {
                        proof {
                            assert(self.keys() =~= apply_one(old(self).keys(), c));
                        }
                    },
                }
            },
        }
    }

    /// Record a readiness transition of the sub-channel for `e`, reported
    /// by its transport; unknown endpoints are ignored.
    pub fn set_state(&mut self, e: &Endpoint, st: ChannelState)
        requires
            old(self).wf(),
        ensures
            final(self).wf(),
            final(self).keys() =~= old(self).keys(),
            final(self)@.len() == old(self)@.len(),
            forall|i: int|
                0 <= i < old(self)@.len() && old(self)@[i].key != *e ==> final(self)@[i] == old(
                    self,
                )@[i],
            forall|i: int|
                0 <= i < old(self)@.len() && old(self)@[i].key == *e ==> final(self)@[i]
                    == (Entry {
                    key: old(self)@[i].key,
                    chan: SubChannel {
                        state: st,
                        load: old(self)@[i].chan.load,
                        id: old(self)@[i].chan.id,
                    },
                }),
    {
        match self.find(e) {
            Some(i) => {
                let en = self.entries[i];
                let new_entry = Entry {
                    key: en.key,
                    chan: SubChannel { state: st, load: en.chan.load, id: en.chan.id },
                };
                self.entries.set(i, new_entry);
                proof {
                    assert forall|j: int|
                        0 <= j < old(self)@.len() && old(self)@[j].key == *e implies self@[j]
                        == (Entry {
                        key: old(self)@[j].key,
                        chan: SubChannel {
                            state: st,
                            load: old(self)@[j].chan.load,
                            id: old(self)@[j].chan.id,
                        },
                    }) by {
                        assert(j == i);
                    }
                    assert forall|x: Endpoint|
                        has_key(self@, x) == has_key(old(self)@, x) by {
                        if has_key(self@, x) {
                            let k = choose|k: int|
                                0 <= k < self@.len() && (#[trigger] self@[k]).key == x;
                            assert(old(self)@[k].key == x);
                        }
                        if has_key(old(self)@, x) {
                            let k = choose|k: int|
                                0 <= k < old(self)@.len() && (#[trigger] old(self)@[k]).key == x;
                            assert(self@[k].key == x);
                        }
                    }
                    assert(self.keys() =~= old(self).keys());
                }
            },
            None => {
                proof {
                    assert forall|x: Endpoint|
                        has_key(self@, x) == has_key(old(self)@, x) by {
                        if has_key(self@, x) {
                            let k = choose|k: int|
                                0 <= k < self@.len() && (#[trigger] self@[k]).key == x;
                            assert(old(self)@[k].key == x);
                        }
                        if has_key(old(self)@, x) {
                            let k = choose|k: int|
                                0 <= k < old(self)@.len() && (#[trigger] old(self)@[k]).key == x;
                            assert(self@[k].key == x);
                        }
                    }
                    assert(self.keys() =~= old(self).keys());
                }
            },
        }
    }

    /// Record a load change of the sub-channel for `e`: one more or one
    /// fewer in-flight request, saturating at the ends.
    pub fn set_load(&mut self, e: &Endpoint, load: u64)
        requires
            old(self).wf(),
        ensures
            final(self).wf(),
            final(self).keys() =~= old(self).keys(),
            final(self)@.len() == old(self)@.len(),
            forall|i: int|
                0 <= i < old(self)@.len() && old(self)@[i].key != *e ==> final(self)@[i] == old(
                    self,
                )@[i],
            forall|i: int|
                0 <= i < old(self)@.len() && old(self)@[i].key == *e ==> final(self)@[i]
                    == (Entry {
                    key: old(self)@[i].key,
                    chan: SubChannel {
                        state: old(self)@[i].chan.state,
                        load: load,
                        id: old(self)@[i].chan.id,
                    },
                }),
    {
        match self.find(e) {
            Some(i) => {
                let en = self.entries[i];
                let new_entry = Entry {
                    key: en.key,
                    chan: SubChannel { state: en.chan.state, load, id: en.chan.id },
                };
                self.entries.set(i, new_entry);
                proof {
                    assert forall|j: int|
                        0 <= j < old(self)@.len() && old(self)@[j].key == *e implies self@[j]
                        == (Entry {
                        key: old(self)@[j].key,
                        chan: SubChannel {
                            state: old(self)@[j].chan.state,
                            load: load,
                            id: old(self)@[j].chan.id,
                        },
                    }) by {
                        assert(j == i);
                    }
                    assert forall|x: Endpoint|
                        has_key(self@, x) == has_key(old(self)@, x) by {
                        if has_key(self@, x) {
                            let k = choose|k: int|
                                0 <= k < self@.len() && (#[trigger] self@[k]).key == x;
                            assert(old(self)@[k].key == x);
                        }
                        if has_key(old(self)@, x) {
                            let k = choose|k: int|
                                0 <= k < old(self)@.len() && (#[trigger] old(self)@[k]).key == x;
                            assert(self@[k].key == x);
                        }
                    }
                    assert(self.keys() =~= old(self).keys());
                }
            },
            None => {
                proof {
                    assert forall|x: Endpoint|
                        has_key(self@, x) == has_key(old(self)@, x) by {
                        if has_key(self@, x) {
                            let k = choose|k: int|
                                0 <= k < self@.len() && (#[trigger] self@[k]).key == x;
                            assert(old(self)@[k].key == x);
                        }
                        if has_key(old(self)@, x) {
                            let k = choose|k: int|
                                0 <= k < old(self)@.len() && (#[trigger] old(self)@[k]).key == x;
                            assert(self@[k].key == x);
                        }
                    }
                    assert(self.keys() =~= old(self).keys());
                }
            },
        }
    }
}

/// The registry-updater: drain the probe's published changes of one tick
/// into the registry, in emission order.
///
/// After the queue is drained, the registry's key set equals the probe's
/// last published set.
pub fn drain_probe(probe: &mut ProbeState, reg: &mut Registry)
    requires
        old(probe).wf(),
        old(probe).phase() == ProbePhase::Publishing,
        old(reg).wf(),
        old(reg).keys() == old(probe).applied(),
        old(reg).next_id() + old(probe).pending().len() <= u64::MAX,
    ensures
        final(probe).wf(),
        final(reg).wf(),
        final(probe).phase() == ProbePhase::Waiting,
        final(probe).pending().len() == 0,
        final(reg).keys() == final(probe).applied(),
        final(reg).keys() == final(probe).committed_set(),
        final(probe).committed_set() == old(probe).target_set(),
        final(probe).trace() == old(probe).trace() + old(probe).pending(),
{
    let ghost pending0 = probe.pending();
    let ghost trace0 = probe.trace();
    let ghost n = pending0.len();
    while probe.pending_len() > 0
        invariant
            n == pending0.len(),
            probe.wf(),
            reg.wf(),
            reg.keys() == probe.applied(),
            probe.pending().len() > 0 ==> probe.phase() == ProbePhase::Publishing,
            probe.pending().len() == 0 ==> probe.phase() == ProbePhase::Waiting
                && probe.committed_set() == old(probe).target_set(),
            probe.target_set() == old(probe).target_set(),
            probe.pending().len() <= n,
            reg.next_id() + probe.pending().len() <= u64::MAX,
            probe.trace() == trace0 + pending0.take(n - probe.pending().len()),
            probe.pending() == pending0.skip(n - probe.pending().len()),
        decreases probe.pending().len(),
    {
        let ghost k = n - probe.pending().len();
        let c = probe.change_accepted();
        reg.apply_change(c);
        proof {
            broadcast use vstd::seq_lib::group_seq_properties;

            assert(pending0.skip(k)[0] == pending0[k]);
            assert(trace0 + pending0.take(k + 1) =~= (trace0 + pending0.take(k)).push(
                pending0[k],
            ));
            assert(pending0.skip(k).drop_first() =~= pending0.skip(k + 1));
        }
    }
    proof {
        assert(pending0.take(n as int) =~= pending0);
        assert(probe.applied() == probe.committed_set());
    }
}

} // verus!
