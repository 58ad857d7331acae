use ginepro::change::Change;
use ginepro::endpoint::{Endpoint, IpAddress};
use ginepro::endpoint_set::EndpointSet;
use ginepro::probe::{ProbePhase, ProbeState};

fn ep(a: u8, b: u8, c: u8, d: u8, port: u16) -> Endpoint {
    Endpoint::new(IpAddress::v4(a, b, c, d), port)
}

fn set_of(eps: &[Endpoint]) -> EndpointSet {
    EndpointSet::from_vec(&eps.to_vec())
}

/// Drive one successful tick and return the changes in emission order.
fn tick_with(probe: &mut ProbeState, eps: &[Endpoint]) -> Vec<Change> {
    match probe.current_phase() {
        ProbePhase::Idle => probe.start(),
        ProbePhase::Waiting => probe.tick(),
        other => panic!("probe cannot resolve in phase {:?}", other),
    }
    probe.resolution_succeeded(set_of(eps));
    let mut out = Vec::new();
    while probe.pending_len() > 0 {
        out.push(probe.change_accepted());
    }
    out
}

#[test]
fn v4_octets_pack_into_numeric_value() {
    assert_eq!(IpAddress::v4(10, 0, 0, 1), IpAddress::V4(0x0A000001));
    assert_eq!(IpAddress::v4(255, 255, 255, 255), IpAddress::V4(u32::MAX));
}

#[test]
fn bootstrap_emits_one_add_per_endpoint() {
    let a = ep(10, 0, 0, 1, 5000);
    let b = ep(10, 0, 0, 2, 5000);
    let mut probe = ProbeState::new();
    let changes = tick_with(&mut probe, &[a, b]);
    assert_eq!(changes, vec![Change::Add(a), Change::Add(b)]);
    assert_eq!(probe.current_phase(), ProbePhase::Waiting);
}

#[test]
fn duplicate_addresses_coalesce_into_one_endpoint() {
    let a = ep(10, 0, 0, 1, 5000);
    let mut probe = ProbeState::new();
    let changes = tick_with(&mut probe, &[a, a, a]);
    assert_eq!(changes, vec![Change::Add(a)]);
}

#[test]
fn identical_resolutions_produce_zero_changes() {
    let a = ep(10, 0, 0, 1, 5000);
    let b = ep(10, 0, 0, 2, 5000);
    let mut probe = ProbeState::new();
    tick_with(&mut probe, &[a, b]);
    let second = tick_with(&mut probe, &[b, a]);
    assert_eq!(second, Vec::new());
    let third = tick_with(&mut probe, &[a, b]);
    assert_eq!(third, Vec::new());
}

#[test]
fn rolling_replacement_emits_minimal_changes() {
    let a = ep(10, 0, 0, 1, 5000);
    let b = ep(10, 0, 0, 2, 5000);
    let c = ep(10, 0, 0, 3, 5000);
    let d = ep(10, 0, 0, 4, 5000);
    let mut probe = ProbeState::new();
    tick_with(&mut probe, &[a, b, c]);
    let changes = tick_with(&mut probe, &[b, c, d]);
    assert_eq!(changes, vec![Change::Add(d), Change::Remove(a)]);
}

#[test]
fn resolution_failure_preserves_the_set_and_emits_nothing() {
    let a = ep(10, 0, 0, 1, 5000);
    let b = ep(10, 0, 0, 2, 5000);
    let mut probe = ProbeState::new();
    tick_with(&mut probe, &[a, b]);
    for _ in 0..3 {
        probe.tick();
        probe.resolution_failed();
        assert_eq!(probe.pending_len(), 0);
        assert_eq!(probe.current_phase(), ProbePhase::Waiting);
    }
    // The set recovered unchanged: re-resolving the same two endpoints is
    // still a no-op.
    let after = tick_with(&mut probe, &[a, b]);
    assert_eq!(after, Vec::new());
}

#[test]
fn empty_resolution_removes_every_endpoint() {
    let a = ep(10, 0, 0, 1, 5000);
    let mut probe = ProbeState::new();
    tick_with(&mut probe, &[a]);
    let drained = tick_with(&mut probe, &[]);
    assert_eq!(drained, vec![Change::Remove(a)]);
    let back = tick_with(&mut probe, &[a]);
    assert_eq!(back, vec![Change::Add(a)]);
}

#[test]
fn per_endpoint_events_alternate_add_remove() {
    let a = ep(10, 0, 0, 1, 5000);
    let b = ep(10, 0, 0, 2, 5000);
    let mut probe = ProbeState::new();
    let mut trace: Vec<Change> = Vec::new();
    trace.extend(tick_with(&mut probe, &[a]));
    trace.extend(tick_with(&mut probe, &[a, b]));
    trace.extend(tick_with(&mut probe, &[b]));
    trace.extend(tick_with(&mut probe, &[a]));
    trace.extend(tick_with(&mut probe, &[]));
    for e in [a, b] {
        let events: Vec<&Change> = trace
            .iter()
            .filter(|c| match c {
                Change::Add(x) => *x == e,
                Change::Remove(x) => *x == e,
            })
            .collect();
        for (i, c) in events.iter().enumerate() {
            let is_add = matches!(c, Change::Add(_));
            assert_eq!(is_add, i % 2 == 0, "events for {:?} do not alternate", e);
        }
    }
}

#[test]
fn changes_are_published_one_by_one_without_loss() {
    let a = ep(10, 0, 0, 1, 5000);
    let b = ep(10, 0, 0, 2, 5000);
    let c = ep(10, 0, 0, 3, 5000);
    let mut probe = ProbeState::new();
    probe.start();
    probe.resolution_succeeded(set_of(&[a, b, c]));
    // The sink is full: the probe stays publishing, and the queued changes
    // wait instead of being dropped.
    assert_eq!(probe.current_phase(), ProbePhase::Publishing);
    assert_eq!(probe.pending_len(), 3);
    let first = probe.change_accepted();
    assert_eq!(first, Change::Add(a));
    assert_eq!(probe.pending_len(), 2);
    assert_eq!(probe.current_phase(), ProbePhase::Publishing);
    let second = probe.change_accepted();
    assert_eq!(second, Change::Add(b));
    let third = probe.change_accepted();
    assert_eq!(third, Change::Add(c));
    assert_eq!(probe.pending_len(), 0);
    assert_eq!(probe.current_phase(), ProbePhase::Waiting);
}

#[test]
fn cancellation_stops_the_probe() {
    let a = ep(10, 0, 0, 1, 5000);
    let mut probe = ProbeState::new();
    tick_with(&mut probe, &[a]);
    probe.cancel();
    assert_eq!(probe.current_phase(), ProbePhase::Stopped);
}
