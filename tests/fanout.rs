use capteur::dispatch::{dispatch, DispatchRound};
use capteur::registry::{Delivery, RegistryError, SinkKind, SinkRegistry, SinkState, WaitOutcome};

fn msg(i: u32) -> String {
    format!("{{\"type\":\"reading\",\"timestamp\":{},\"sensors\":{{}}}}", i)
}

fn drain(reg: &mut SinkRegistry, id: u64) -> Vec<String> {
    let mut out = Vec::new();
    while let Some(m) = reg.take_next(id) {
        out.push(m);
    }
    out
}

#[test]
fn storage_sinks_persist_every_message_in_order() {
    let mut reg = SinkRegistry::new();
    let a = reg.register(SinkKind::Storage, 256).unwrap();
    let b = reg.register(SinkKind::Storage, 256).unwrap();
    let input: Vec<String> = (0..100).map(msg).collect();
    for m in &input {
        let waiting = dispatch(&mut reg, m.clone());
        assert!(waiting.is_empty());
    }
    assert_eq!(drain(&mut reg, a), input);
    assert_eq!(drain(&mut reg, b), input);
}

#[test]
fn storage_consumer_keeping_pace_with_small_queue_loses_nothing() {
    let mut reg = SinkRegistry::new();
    let a = reg.register(SinkKind::Storage, 2).unwrap();
    let input: Vec<String> = (0..10).map(msg).collect();
    let mut persisted = Vec::new();
    for m in &input {
        assert!(dispatch(&mut reg, m.clone()).is_empty());
        persisted.push(reg.take_next(a).unwrap());
    }
    assert_eq!(persisted, input);
}

#[test]
fn viewer_keeping_pace_receives_messages_while_registered() {
    let mut reg = SinkRegistry::new();
    dispatch(&mut reg, msg(0));
    let v = reg.register(SinkKind::LiveViewer, 4).unwrap();
    let mut seen = Vec::new();
    for i in 1..=6 {
        dispatch(&mut reg, msg(i));
        seen.extend(drain(&mut reg, v));
    }
    assert!(reg.deregister(v));
    dispatch(&mut reg, msg(7));
    let expected: Vec<String> = (1..=6).map(msg).collect();
    assert_eq!(seen, expected);
    assert_eq!(reg.status(v), None);
}

#[test]
fn full_viewer_queue_drops_oldest() {
    let mut reg = SinkRegistry::new();
    let v = reg.register(SinkKind::LiveViewer, 3).unwrap();
    for i in 0..3 {
        assert_eq!(reg.deliver(v, &msg(i)), Delivery::Enqueued);
    }
    assert_eq!(reg.status(v).unwrap().dropped, 0);
    assert_eq!(reg.deliver(v, &msg(3)), Delivery::EnqueuedDroppingOldest);
    let st = reg.status(v).unwrap();
    assert_eq!(st.queued, 3);
    assert_eq!(st.capacity, 3);
    assert_eq!(st.dropped, 1);
    assert_eq!(drain(&mut reg, v), vec![msg(1), msg(2), msg(3)]);
}

#[test]
fn full_viewer_does_not_hold_up_other_sinks() {
    let mut reg = SinkRegistry::new();
    let slow = reg.register(SinkKind::LiveViewer, 1).unwrap();
    let fast = reg.register(SinkKind::LiveViewer, 8).unwrap();
    for i in 0..5 {
        assert!(dispatch(&mut reg, msg(i)).is_empty());
    }
    assert_eq!(reg.status(slow).unwrap().dropped, 4);
    assert_eq!(drain(&mut reg, slow), vec![msg(4)]);
    assert_eq!(drain(&mut reg, fast), (0..5).map(msg).collect::<Vec<_>>());
}

#[test]
fn deregistered_mid_round_gets_nothing() {
    let mut reg = SinkRegistry::new();
    let a = reg.register(SinkKind::LiveViewer, 4).unwrap();
    let b = reg.register(SinkKind::LiveViewer, 4).unwrap();
    let c = reg.register(SinkKind::Storage, 4).unwrap();
    let mut round = DispatchRound::begin(&reg, msg(1));
    assert_eq!(round.step(&mut reg), Delivery::Enqueued);
    assert!(reg.deregister(b));
    assert_eq!(round.step(&mut reg), Delivery::NotRegistered);
    assert_eq!(round.step(&mut reg), Delivery::Enqueued);
    assert!(round.is_done());
    assert_eq!(reg.take_next(b), None);
    assert_eq!(drain(&mut reg, a), vec![msg(1)]);
    assert_eq!(drain(&mut reg, c), vec![msg(1)]);
}

#[test]
fn snapshot_keeps_registration_order() {
    let mut reg = SinkRegistry::new();
    let a = reg.register(SinkKind::Storage, 1).unwrap();
    let b = reg.register(SinkKind::LiveViewer, 1).unwrap();
    let c = reg.register(SinkKind::LiveViewer, 1).unwrap();
    assert_eq!(reg.snapshot(), vec![a, b, c]);
    assert!(reg.deregister(b));
    assert_eq!(reg.snapshot(), vec![a, c]);
    assert!(!reg.deregister(b));
    assert_eq!(reg.len(), 2);
    assert!(reg.contains(a) && !reg.contains(b));
}

#[test]
fn identities_are_never_reused() {
    let mut reg = SinkRegistry::new();
    let a = reg.register(SinkKind::LiveViewer, 1).unwrap();
    assert!(reg.deregister(a));
    let b = reg.register(SinkKind::LiveViewer, 1).unwrap();
    assert_ne!(a, b);
    assert_eq!(reg.next_id(), 2);
}

#[test]
fn registration_fails_when_shutting_down() {
    let mut reg = SinkRegistry::new();
    reg.shutdown();
    assert_eq!(reg.register(SinkKind::Storage, 4), Err(RegistryError::ShuttingDown));
    assert!(reg.snapshot().is_empty());
}

#[test]
fn full_storage_sink_waits_then_takes_message() {
    let mut reg = SinkRegistry::new();
    let s = reg.register(SinkKind::Storage, 1).unwrap();
    let v = reg.register(SinkKind::LiveViewer, 4).unwrap();
    assert!(dispatch(&mut reg, msg(0)).is_empty());
    let waiting = dispatch(&mut reg, msg(1));
    assert_eq!(waiting, vec![s]);
    assert_eq!(reg.status(s).unwrap().state, SinkState::Draining);
    assert_eq!(reg.status(s).unwrap().dropped, 0);
    assert_eq!(reg.take_next(s), Some(msg(0)));
    assert_eq!(reg.resolve_storage_wait(s, &msg(1)), WaitOutcome::Enqueued);
    assert_eq!(reg.status(s).unwrap().state, SinkState::Active);
    assert_eq!(drain(&mut reg, s), vec![msg(1)]);
    assert_eq!(drain(&mut reg, v), vec![msg(0), msg(1)]);
}

#[test]
fn wedged_storage_sink_is_closed_and_removed() {
    let mut reg = SinkRegistry::new();
    let s = reg.register(SinkKind::Storage, 1).unwrap();
    let v = reg.register(SinkKind::LiveViewer, 4).unwrap();
    dispatch(&mut reg, msg(0));
    assert_eq!(dispatch(&mut reg, msg(1)), vec![s]);
    assert_eq!(reg.resolve_storage_wait(s, &msg(1)), WaitOutcome::Closed);
    assert!(!reg.contains(s));
    assert_eq!(reg.resolve_storage_wait(s, &msg(1)), WaitOutcome::NotRegistered);
    assert!(dispatch(&mut reg, msg(2)).is_empty());
    assert_eq!(drain(&mut reg, v), vec![msg(0), msg(1), msg(2)]);
}

#[test]
fn delivery_to_unknown_sink_does_nothing() {
    let mut reg = SinkRegistry::new();
    let a = reg.register(SinkKind::LiveViewer, 2).unwrap();
    assert_eq!(reg.deliver(a + 10, &msg(0)), Delivery::NotRegistered);
    assert_eq!(reg.take_next(a + 10), None);
    assert_eq!(reg.status(a).unwrap().queued, 0);
}

#[test]
fn end_to_end_two_viewers_and_a_late_one() {
    let payload = String::from(
        "{\"timestamp\":1000,\"sensors\":{\"Barometer\":{\"type\":\"measurement\",\"value\":101.3,\"unit\":\"kPa\"}}}",
    );
    let mut reg = SinkRegistry::new();
    let v1 = reg.register(SinkKind::LiveViewer, 256).unwrap();
    let v2 = reg.register(SinkKind::LiveViewer, 256).unwrap();
    assert!(dispatch(&mut reg, payload.clone()).is_empty());
    let late = reg.register(SinkKind::LiveViewer, 256).unwrap();
    assert_eq!(drain(&mut reg, v1), vec![payload.clone()]);
    assert_eq!(drain(&mut reg, v2), vec![payload.clone()]);
    assert_eq!(drain(&mut reg, late), Vec::<String>::new());
    dispatch(&mut reg, msg(2));
    dispatch(&mut reg, msg(3));
    assert_eq!(drain(&mut reg, late), vec![msg(2), msg(3)]);
    assert_eq!(drain(&mut reg, v1), vec![msg(2), msg(3)]);
}
