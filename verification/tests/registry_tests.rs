use ginepro::change::Change;
use ginepro::endpoint::{Endpoint, IpAddress};
use ginepro::endpoint_set::EndpointSet;
use ginepro::probe::{ProbePhase, ProbeState};
use ginepro::registry::{drain_probe, ChannelState, Registry};

fn ep(a: u8, b: u8, c: u8, d: u8, port: u16) -> Endpoint {
    Endpoint::new(IpAddress::v4(a, b, c, d), port)
}

/// One probe tick resolved to `eps`, drained into `reg` by the updater.
fn sync(probe: &mut ProbeState, reg: &mut Registry, eps: &[Endpoint]) {
    match probe.current_phase() {
        ProbePhase::Idle => probe.start(),
        ProbePhase::Waiting => probe.tick(),
        other => panic!("probe cannot resolve in phase {:?}", other),
    }
    probe.resolution_succeeded(EndpointSet::from_vec(&eps.to_vec()));
    if probe.pending_len() > 0 {
        drain_probe(probe, reg);
    }
}

#[test]
fn drained_registry_keys_match_the_probes_last_set() {
    let a = ep(10, 0, 0, 1, 5000);
    let b = ep(10, 0, 0, 2, 5000);
    let c = ep(10, 0, 0, 3, 5000);
    let mut probe = ProbeState::new();
    let mut reg = Registry::new();
    sync(&mut probe, &mut reg, &[a, b]);
    assert_eq!(reg.len(), 2);
    assert!(reg.contains(&a) && reg.contains(&b));
    sync(&mut probe, &mut reg, &[b, c]);
    assert_eq!(reg.len(), 2);
    assert!(!reg.contains(&a));
    assert!(reg.contains(&b) && reg.contains(&c));
    sync(&mut probe, &mut reg, &[]);
    assert_eq!(reg.len(), 0);
}

#[test]
fn new_sub_channels_start_not_ready_with_no_load() {
    let a = ep(10, 0, 0, 1, 5000);
    let mut reg = Registry::new();
    reg.apply_change(Change::Add(a));
    let en = reg.lookup(&a).expect("endpoint was added");
    assert_eq!(en.chan.state, ChannelState::NotReady);
    assert_eq!(en.chan.load, 0);
}

#[test]
fn adding_twice_leaves_the_registry_as_adding_once() {
    let a = ep(10, 0, 0, 1, 5000);
    let mut reg = Registry::new();
    reg.apply_change(Change::Add(a));
    let before = reg.lookup(&a).expect("present");
    reg.apply_change(Change::Add(a));
    assert_eq!(reg.len(), 1);
    let after = reg.lookup(&a).expect("still present");
    assert_eq!(before, after);
}

#[test]
fn removing_an_absent_endpoint_is_a_no_op() {
    let a = ep(10, 0, 0, 1, 5000);
    let b = ep(10, 0, 0, 2, 5000);
    let mut reg = Registry::new();
    reg.apply_change(Change::Add(a));
    let before = reg.lookup(&a).expect("present");
    reg.apply_change(Change::Remove(b));
    assert_eq!(reg.len(), 1);
    assert_eq!(reg.lookup(&a).expect("still present"), before);
}

#[test]
fn surviving_sub_channels_are_not_recreated() {
    let a = ep(10, 0, 0, 1, 5000);
    let b = ep(10, 0, 0, 2, 5000);
    let c = ep(10, 0, 0, 3, 5000);
    let d = ep(10, 0, 0, 4, 5000);
    let mut probe = ProbeState::new();
    let mut reg = Registry::new();
    sync(&mut probe, &mut reg, &[a, b, c]);
    let id_b = reg.lookup(&b).expect("b registered").chan.id;
    let id_c = reg.lookup(&c).expect("c registered").chan.id;
    sync(&mut probe, &mut reg, &[b, c, d]);
    // The updater observed exactly Remove(a) and Add(d): b and c kept the
    // sub-channels they were created with.
    assert_eq!(reg.lookup(&b).expect("b kept").chan.id, id_b);
    assert_eq!(reg.lookup(&c).expect("c kept").chan.id, id_c);
    assert!(reg.lookup(&d).is_some());
    assert!(reg.lookup(&a).is_none());
}

#[test]
fn transient_outage_never_shrinks_the_registry() {
    let a = ep(10, 0, 0, 1, 5000);
    let b = ep(10, 0, 0, 2, 5000);
    let mut probe = ProbeState::new();
    let mut reg = Registry::new();
    sync(&mut probe, &mut reg, &[a, b]);
    for _ in 0..3 {
        probe.tick();
        probe.resolution_failed();
        assert_eq!(probe.pending_len(), 0);
        assert_eq!(reg.len(), 2);
    }
    sync(&mut probe, &mut reg, &[a, b]);
    assert_eq!(reg.len(), 2);
    assert!(reg.contains(&a) && reg.contains(&b));
}

#[test]
fn set_state_touches_only_the_named_endpoint() {
    let a = ep(10, 0, 0, 1, 5000);
    let b = ep(10, 0, 0, 2, 5000);
    let mut reg = Registry::new();
    reg.apply_change(Change::Add(a));
    reg.apply_change(Change::Add(b));
    reg.set_state(&a, ChannelState::Ready);
    assert_eq!(reg.lookup(&a).expect("a").chan.state, ChannelState::Ready);
    assert_eq!(reg.lookup(&b).expect("b").chan.state, ChannelState::NotReady);
    reg.set_state(&b, ChannelState::TransientFailure);
    assert_eq!(reg.lookup(&a).expect("a").chan.state, ChannelState::Ready);
    assert_eq!(
        reg.lookup(&b).expect("b").chan.state,
        ChannelState::TransientFailure
    );
}
