//! The balanced channel's caller-facing decisions: overall readiness and
//! per-call dispatch. The transport work around them — awaiting readiness,
//! forwarding the request — is the driver's; every decision is taken here.

use vstd::prelude::*;

use crate::registry::{ChannelState, Registry};
use crate::select::{
    is_ready, lemma_ready_of_empty, lemma_ready_of_member, ready_of, ready_snapshot, row_leq,
    select_from, select_spec, ReadyEntry,
};

verus! {

/// The error kinds a caller or the probe can observe.
#[derive(Clone, Copy, PartialEq, Eq, Structural, Debug)]
pub enum ErrorKind {
    /// The lookup failed; the previous endpoint set is retained.
    ResolutionFailed,
    /// The lookup returned no addresses; every endpoint is removed.
    EmptyResolution,
    /// No sub-channel is `Ready`; readiness must be awaited.
    NoReadyEndpoints,
    /// A sub-channel's transport failed; surfaced to the caller unchanged.
    TransportError,
    /// The owning channel was cancelled.
    ChannelShutdown,
}

/// What a poll of the channel's overall readiness resolves to.
#[derive(Clone, Copy, PartialEq, Eq, Structural, Debug)]
pub enum ReadyPoll {
    /// The owner cancelled: resolve with `ChannelShutdown`.
    Shutdown,
    /// No sub-channel is `Ready`: suspend, do not fail.
    Pending,
    /// At least one sub-channel is `Ready`: dispatch may proceed.
    ReadyNow,
}

/// What one attempt to dispatch a call resolves to.
#[derive(Clone, Copy, PartialEq, Eq, Structural, Debug)]
pub enum CallDecision {
    /// The owner cancelled: resolve the call with `ChannelShutdown`.
    Shutdown,
    /// No sub-channel is `Ready`: suspend at `ready()` and retry on the
    /// next readiness change.
    Suspend,
    /// Forward the request on the sub-channel of this row.
    Dispatch(ReadyEntry),
}

/// Whether any sub-channel is `Ready`.
pub fn has_ready(reg: &Registry) -> (r: bool)
    ensures
        r == is_ready(reg@),
{
    let mut i: usize = 0;
    while i < reg.len()
        invariant
            i <= reg@.len(),
            forall|k: int| 0 <= k < i ==> (#[trigger] reg@[k]).chan.state != ChannelState::Ready,
        decreases reg@.len() - i,
    {
        if reg.get(i).chan.state == ChannelState::Ready {
            proof {
                assert(reg@[i as int].chan.state == ChannelState::Ready);
            }
            return true;
        }
        i += 1;
    }
    false
}

/// One poll of `ready()`: the channel is ready iff at least one
/// sub-channel is `Ready`; with none it suspends rather than fails, and
/// cancellation resolves it.
pub fn poll_ready(reg: &Registry, cancelled: bool) -> (d: ReadyPoll)
    ensures
        cancelled ==> d == ReadyPoll::Shutdown,
        !cancelled && is_ready(reg@) ==> d == ReadyPoll::ReadyNow,
        !cancelled && !is_ready(reg@) ==> d == ReadyPoll::Pending,
{
    if cancelled {
        ReadyPoll::Shutdown
    } else if has_ready(reg) {
        ReadyPoll::ReadyNow
    } else {
        ReadyPoll::Pending
    }
}

/// One attempt to dispatch a call: cancellation resolves it with
/// `Shutdown`; an empty ready set suspends it; otherwise the
/// power-of-two-choices rule picks a `Ready` sub-channel — never one in
/// `NotReady` or `TransientFailure` — canonically, so that the outcome
/// depends only on the ready rows and the two random words, not on the
/// registry's insertion order.
pub fn poll_call(reg: &Registry, cancelled: bool, r1: u64, r2: u64) -> (d: CallDecision)
    ensures
        cancelled ==> d == CallDecision::Shutdown,
        !cancelled ==> d == (match select_spec(ready_of(reg@).sort_by(row_leq()), r1, r2) {
            Option::None => CallDecision::Suspend,
            Option::Some(x) => CallDecision::Dispatch(x),
        }),
        !cancelled && !is_ready(reg@) ==> d == CallDecision::Suspend,
        !cancelled && is_ready(reg@) ==> d matches CallDecision::Dispatch(_),
        !cancelled && ready_of(reg@).len() == 1 ==> d == CallDecision::Dispatch(
            ready_of(reg@)[0],
        ),
        d matches CallDecision::Dispatch(x) ==> exists|i: int|
            0 <= i < reg@.len() && (#[trigger] reg@[i]).key == x.ep && reg@[i].chan.state
                == ChannelState::Ready && reg@[i].chan.load == x.load,
{
    if cancelled {
        return CallDecision::Shutdown;
    }
    let snap = ready_snapshot(reg);
    proof {
        broadcast use vstd::seq_lib::group_seq_properties;

        lemma_ready_of_empty(reg@);
        vstd::seq_lib::to_multiset_len(snap@);
        vstd::seq_lib::to_multiset_len(ready_of(reg@));
    }
    proof {
        if ready_of(reg@).len() == 1 {
            vstd::seq_lib::to_multiset_contains(snap@, ready_of(reg@)[0]);
            vstd::seq_lib::to_multiset_contains(ready_of(reg@), ready_of(reg@)[0]);
            assert(ready_of(reg@).contains(ready_of(reg@)[0]));
            assert(snap@.contains(ready_of(reg@)[0]));
            assert(snap@[0] == ready_of(reg@)[0]);
        }
    }
    let r = select_from(&snap, r1, r2);
    match r {
        None => CallDecision::Suspend,
        Some(x) => {
            proof {
                vstd::seq_lib::to_multiset_contains(snap@, x);
                vstd::seq_lib::to_multiset_contains(ready_of(reg@), x);
                lemma_ready_of_member(reg@, x);
            }
            CallDecision::Dispatch(x)
        },
    }
}

/// The error kind, if any, that a call attempt surfaces at once: a
/// suspended call is not an error the caller sees, but the driver that
/// cannot suspend reports `NoReadyEndpoints`.
pub fn decision_error(d: &CallDecision) -> (r: Option<ErrorKind>)
    ensures
        *d == CallDecision::Shutdown ==> r == Some(ErrorKind::ChannelShutdown),
        *d == CallDecision::Suspend ==> r == Some(ErrorKind::NoReadyEndpoints),
        (d matches CallDecision::Dispatch(_)) ==> r is None,
{
    match d {
        CallDecision::Shutdown => Some(ErrorKind::ChannelShutdown),
        CallDecision::Suspend => Some(ErrorKind::NoReadyEndpoints),
        CallDecision::Dispatch(_) => None,
    }
}

} // verus!
