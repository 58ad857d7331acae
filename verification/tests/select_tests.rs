use ginepro::change::Change;
use ginepro::channel::{decision_error, poll_call, poll_ready, CallDecision, ErrorKind, ReadyPoll};
use ginepro::endpoint::{Endpoint, IpAddress};
use ginepro::registry::{ChannelState, Registry};
use ginepro::select::{select_from, ReadyEntry};

fn ep(a: u8, b: u8, c: u8, d: u8, port: u16) -> Endpoint {
    Endpoint::new(IpAddress::v4(a, b, c, d), port)
}

/// A small deterministic generator for the two random words of a draw.
struct Lcg(u64);

impl Lcg {
    fn next(&mut self) -> u64 {
        self.0 = self
            .0
            .wrapping_mul(6364136223846793005)
            .wrapping_add(1442695040888963407);
        self.0 >> 16
    }
}

#[test]
fn selection_never_returns_a_sub_channel_that_is_not_ready() {
    let a = ep(10, 0, 0, 1, 5000);
    let b = ep(10, 0, 0, 2, 5000);
    let c = ep(10, 0, 0, 3, 5000);
    let mut reg = Registry::new();
    for e in [a, b, c] {
        reg.apply_change(Change::Add(e));
    }
    reg.set_state(&a, ChannelState::Ready);
    reg.set_state(&b, ChannelState::TransientFailure);
    // c stays NotReady.
    let mut rng = Lcg(7);
    for _ in 0..200 {
        match poll_call(&reg, false, rng.next(), rng.next()) {
            CallDecision::Dispatch(row) => assert_eq!(row.ep, a),
            other => panic!("expected a dispatch, got {:?}", other),
        }
    }
}

#[test]
fn a_single_ready_endpoint_is_always_chosen() {
    let a = ep(192, 168, 1, 9, 443);
    let mut reg = Registry::new();
    reg.apply_change(Change::Add(a));
    reg.set_state(&a, ChannelState::Ready);
    let mut rng = Lcg(99);
    for _ in 0..100 {
        match poll_call(&reg, false, rng.next(), rng.next()) {
            CallDecision::Dispatch(row) => assert_eq!(row.ep, a),
            other => panic!("expected a dispatch, got {:?}", other),
        }
    }
}

#[test]
fn selection_is_independent_of_insertion_order() {
    let eps = [
        ep(10, 0, 0, 1, 5000),
        ep(10, 0, 0, 2, 5000),
        ep(10, 0, 0, 3, 5000),
        ep(10, 0, 0, 4, 5000),
    ];
    let loads = [4u64, 0, 9, 2];
    let mut reg1 = Registry::new();
    for (e, l) in eps.iter().zip(loads.iter()) {
        reg1.apply_change(Change::Add(*e));
        reg1.set_state(e, ChannelState::Ready);
        reg1.set_load(e, *l);
    }
    let mut reg2 = Registry::new();
    for (e, l) in eps.iter().zip(loads.iter()).rev() {
        reg2.apply_change(Change::Add(*e));
        reg2.set_state(e, ChannelState::Ready);
        reg2.set_load(e, *l);
    }
    let mut rng = Lcg(1234);
    for _ in 0..500 {
        let r1 = rng.next();
        let r2 = rng.next();
        assert_eq!(poll_call(&reg1, false, r1, r2), poll_call(&reg2, false, r1, r2));
    }
}

#[test]
fn the_less_loaded_of_the_two_samples_wins() {
    let light = ReadyEntry { ep: ep(10, 0, 0, 1, 80), load: 1 };
    let heavy = ReadyEntry { ep: ep(10, 0, 0, 2, 80), load: 100 };
    let snap = vec![light, heavy];
    // Every draw of two distinct rows sees both, so the light one always
    // wins whichever is sampled first.
    for r1 in 0..8u64 {
        for r2 in 0..8u64 {
            assert_eq!(select_from(&snap, r1, r2), Some(light));
        }
    }
}

#[test]
fn ties_break_toward_the_first_sample() {
    let first = ReadyEntry { ep: ep(10, 0, 0, 1, 80), load: 5 };
    let second = ReadyEntry { ep: ep(10, 0, 0, 2, 80), load: 5 };
    let snap = vec![first, second];
    // r1 even samples index 0 first, r1 odd samples index 1 first.
    assert_eq!(select_from(&snap, 0, 0), Some(first));
    assert_eq!(select_from(&snap, 1, 0), Some(second));
}

#[test]
fn an_empty_snapshot_selects_nothing() {
    let snap: Vec<ReadyEntry> = Vec::new();
    assert_eq!(select_from(&snap, 3, 4), None);
}

#[test]
fn two_ready_endpoints_split_the_traffic_roughly_evenly() {
    let a = ep(10, 0, 0, 1, 5000);
    let b = ep(10, 0, 0, 2, 5000);
    let mut reg = Registry::new();
    for e in [a, b] {
        reg.apply_change(Change::Add(e));
        reg.set_state(&e, ChannelState::Ready);
    }
    assert_eq!(poll_ready(&reg, false), ReadyPoll::ReadyNow);
    let mut hits_a = 0u32;
    let trials = 1000;
    let mut rng = Lcg(42);
    for _ in 0..trials {
        match poll_call(&reg, false, rng.next(), rng.next()) {
            CallDecision::Dispatch(row) => {
                if row.ep == a {
                    hits_a += 1;
                }
            },
            other => panic!("expected a dispatch, got {:?}", other),
        }
    }
    // Both endpoints carry an empirical frequency in [0.35, 0.65].
    assert!(hits_a >= 350 && hits_a <= 650, "a was hit {} times", hits_a);
}

#[test]
fn readiness_suspends_while_every_endpoint_fails_and_resumes_on_recovery() {
    let a = ep(10, 0, 0, 1, 5000);
    let b = ep(10, 0, 0, 2, 5000);
    let mut reg = Registry::new();
    for e in [a, b] {
        reg.apply_change(Change::Add(e));
        reg.set_state(&e, ChannelState::TransientFailure);
    }
    assert_eq!(poll_ready(&reg, false), ReadyPoll::Pending);
    assert_eq!(poll_call(&reg, false, 1, 2), CallDecision::Suspend);
    reg.set_state(&b, ChannelState::Ready);
    assert_eq!(poll_ready(&reg, false), ReadyPoll::ReadyNow);
    match poll_call(&reg, false, 1, 2) {
        CallDecision::Dispatch(row) => assert_eq!(row.ep, b),
        other => panic!("expected a dispatch, got {:?}", other),
    }
}

#[test]
fn an_empty_registry_suspends_dispatch() {
    let reg = Registry::new();
    assert_eq!(poll_ready(&reg, false), ReadyPoll::Pending);
    assert_eq!(poll_call(&reg, false, 5, 6), CallDecision::Suspend);
}

#[test]
fn cancellation_resolves_pending_work_with_shutdown() {
    let reg = Registry::new();
    assert_eq!(poll_ready(&reg, true), ReadyPoll::Shutdown);
    let d = poll_call(&reg, true, 0, 0);
    assert_eq!(d, CallDecision::Shutdown);
    assert_eq!(decision_error(&d), Some(ErrorKind::ChannelShutdown));
    assert_eq!(
        decision_error(&CallDecision::Suspend),
        Some(ErrorKind::NoReadyEndpoints)
    );
}
