use capteur::backoff::Backoff;
use capteur::connection::{ConnEvent, ConnPhase, Connection};
use capteur::ingress::{ingress_step, IngressAction, IngressEvent, IngressPhase};
use capteur::registry::{SinkKind, SinkRegistry};
use capteur::storage::{after_insert, StorageStep};
use capteur::transports::TransportType;
use capteur::util::get_epoch_ms;

const POLICY: Backoff = Backoff { base_ms: 200, cap_ms: 30_000 };

#[test]
fn backoff_ceiling_doubles_up_to_cap() {
    let got: Vec<u64> = (0..10).map(|a| POLICY.ceiling_ms(a)).collect();
    assert_eq!(got, vec![200, 400, 800, 1600, 3200, 6400, 12800, 25600, 30000, 30000]);
    assert_eq!(POLICY.ceiling_ms(u32::MAX), 30_000);
    let zero = Backoff { base_ms: 0, cap_ms: 100 };
    assert_eq!(zero.ceiling_ms(50), 0);
    let over = Backoff { base_ms: 500, cap_ms: 100 };
    assert_eq!(over.ceiling_ms(0), 100);
}

#[test]
fn backoff_delay_stays_in_upper_half() {
    assert_eq!(POLICY.delay_ms(0, 0), 100);
    assert_eq!(POLICY.delay_ms(0, 100), 200);
    assert_eq!(POLICY.delay_ms(0, 101), 100);
    assert_eq!(POLICY.delay_ms(2, 7), 407);
    for j in [0u64, 1, 999, u64::MAX] {
        let d = POLICY.delay_ms(9, j);
        assert!((15_000..=30_000).contains(&d));
    }
    let big = Backoff { base_ms: u64::MAX, cap_ms: u64::MAX };
    assert!(big.delay_ms(3, u64::MAX) >= u64::MAX / 2);
}

#[test]
fn malformed_delivery_is_acked_and_next_is_submitted() {
    let (p, a) = ingress_step(
        IngressPhase::Consuming,
        IngressEvent::Delivery { tag: 1, decoded: false },
        &POLICY,
        0,
    );
    assert_eq!(p, IngressPhase::Consuming);
    assert_eq!(a, IngressAction::Ack { tag: 1 });
    let (p, a) = ingress_step(p, IngressEvent::Delivery { tag: 2, decoded: true }, &POLICY, 0);
    assert_eq!(p, IngressPhase::HandingOff { tag: 2 });
    assert_eq!(a, IngressAction::Submit { tag: 2 });
    let (p, a) = ingress_step(p, IngressEvent::HandedOff, &POLICY, 0);
    assert_eq!(p, IngressPhase::Consuming);
    assert_eq!(a, IngressAction::Ack { tag: 2 });
}

#[test]
fn submit_timeout_pauses_without_ack() {
    let p = IngressPhase::HandingOff { tag: 9 };
    let (p, a) = ingress_step(p, IngressEvent::SubmitTimedOut, &POLICY, 0);
    assert_eq!(p, IngressPhase::Paused { tag: 9 });
    assert_eq!(a, IngressAction::PauseConsuming);
    let (p, a) = ingress_step(p, IngressEvent::Delivery { tag: 10, decoded: true }, &POLICY, 0);
    assert_eq!(p, IngressPhase::Paused { tag: 9 });
    assert_eq!(a, IngressAction::Wait);
    let (p, a) = ingress_step(p, IngressEvent::QueueHasRoom, &POLICY, 0);
    assert_eq!(p, IngressPhase::HandingOff { tag: 9 });
    assert_eq!(a, IngressAction::Submit { tag: 9 });
}

#[test]
fn reconnect_backs_off_and_resumes() {
    let (p, a) = ingress_step(IngressPhase::HandingOff { tag: 4 }, IngressEvent::ConnectionLost, &POLICY, 1_000);
    assert_eq!(p, IngressPhase::Connecting { attempt: 0 });
    assert_eq!(a, IngressAction::ConnectAfter { delay_ms: 100 + 1_000 % 101 });
    let mut phase = p;
    let mut ceilings = Vec::new();
    for _ in 0..5 {
        let (p, a) = ingress_step(phase, IngressEvent::ConnectFailed, &POLICY, u64::MAX);
        phase = p;
        match a {
            IngressAction::ConnectAfter { delay_ms } => ceilings.push(delay_ms),
            other => panic!("unexpected action {:?}", other),
        }
    }
    assert_eq!(phase, IngressPhase::Connecting { attempt: 5 });
    assert!(ceilings.windows(2).all(|w| w[0] <= w[1]));
    let (p, a) = ingress_step(phase, IngressEvent::Connected, &POLICY, 0);
    assert_eq!(p, IngressPhase::Consuming);
    assert_eq!(a, IngressAction::Subscribe);
    let saturated = ingress_step(IngressPhase::Connecting { attempt: u32::MAX }, IngressEvent::ConnectFailed, &POLICY, 0);
    assert_eq!(saturated.0, IngressPhase::Connecting { attempt: u32::MAX });
}

#[test]
fn connection_lifecycle_registers_and_deregisters() {
    let mut reg = SinkRegistry::new();
    let mut conn = Connection::new(8);
    assert_eq!(conn.phase(), ConnPhase::Connecting);
    let id = conn.handle(&mut reg, ConnEvent::HandshakeSucceeded).unwrap();
    assert_eq!(conn.phase(), ConnPhase::Active { sink: id });
    assert_eq!(reg.status(id).unwrap().kind, SinkKind::LiveViewer);
    assert_eq!(reg.status(id).unwrap().capacity, 8);
    assert_eq!(conn.handle(&mut reg, ConnEvent::SendFailed), None);
    assert_eq!(conn.phase(), ConnPhase::Closing { sink: id });
    assert!(reg.contains(id));
    conn.finish_close(&mut reg);
    assert_eq!(conn.phase(), ConnPhase::Closed);
    assert!(!reg.contains(id));
    conn.finish_close(&mut reg);
    assert_eq!(conn.phase(), ConnPhase::Closed);
}

#[test]
fn failed_handshake_registers_nothing() {
    let mut reg = SinkRegistry::new();
    let mut conn = Connection::new(8);
    assert_eq!(conn.handle(&mut reg, ConnEvent::HandshakeFailed), None);
    assert_eq!(conn.phase(), ConnPhase::Closed);
    assert_eq!(reg.len(), 0);
    let mut late = Connection::new(8);
    reg.shutdown();
    assert_eq!(late.handle(&mut reg, ConnEvent::HandshakeSucceeded), None);
    assert_eq!(late.phase(), ConnPhase::Closed);
}

#[test]
fn storage_insert_retries_then_gives_up() {
    assert_eq!(after_insert(true, 1, 3, &POLICY, 0), StorageStep::Done);
    assert_eq!(after_insert(false, 1, 3, &POLICY, 0), StorageStep::RetryAfter { delay_ms: 100 });
    assert_eq!(after_insert(false, 2, 3, &POLICY, 0), StorageStep::RetryAfter { delay_ms: 200 });
    assert_eq!(after_insert(false, 3, 3, &POLICY, 0), StorageStep::GiveUp);
}

#[test]
fn epoch_clock_is_after_2020() {
    assert!(get_epoch_ms() > 1_577_836_800_000);
    assert_ne!(TransportType::AMQP, TransportType::Kafka);
}
