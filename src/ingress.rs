//! Decisions of the broker ingress: what to do with each delivery, when to
//! acknowledge, when to pause, and how long to wait before reconnecting.
//! The caller performs each action and reports what happened as an event.

use crate::backoff::{jittered, Backoff};
use vstd::prelude::*;

verus! {

#[derive(Clone, Copy, Debug, PartialEq, Eq, Structural)]
pub enum IngressPhase {
    /// Waiting to (re)connect; `attempt` counts the failed tries so far.
    Connecting { attempt: u32 },
    /// Subscribed, ready for the next delivery.
    Consuming,
    /// A decoded delivery is being handed to the dispatcher.
    HandingOff { tag: u64 },
    /// The hand-off timed out: consumption is paused and the delivery is
    /// held, not acknowledged.
    Paused { tag: u64 },
}

#[derive(Clone, Copy, Debug, PartialEq, Eq, Structural)]
pub enum IngressEvent {
    Connected,
    ConnectFailed,
    ConnectionLost,
    /// A delivery arrived; `decoded` says whether it decoded to a message.
    Delivery { tag: u64, decoded: bool },
    /// The dispatcher took the delivery being handed off.
    HandedOff,
    /// The dispatcher's ingress queue stayed full for the whole timeout.
    SubmitTimedOut,
    /// The dispatcher's ingress queue has room again.
    QueueHasRoom,
}

#[derive(Clone, Copy, Debug, PartialEq, Eq, Structural)]
pub enum IngressAction {
    ConnectAfter { delay_ms: u64 },
    Subscribe,
    Ack { tag: u64 },
    /// Hand the decoded delivery to the dispatcher, waiting at most the
    /// submit timeout.
    Submit { tag: u64 },
    PauseConsuming,
    /// Nothing to do.
    Wait,
}

pub open spec fn retry_delay(b: Backoff, attempt: u32, jitter: u64) -> u64 {
    jittered(b.ceiling(attempt as nat), jitter as nat) as u64
}

/// The ingress transition table.
pub open spec fn ingress_next(
    phase: IngressPhase,
    ev: IngressEvent,
    b: Backoff,
    jitter: u64,
) -> (IngressPhase, IngressAction) {
    match phase {
        IngressPhase::Connecting { attempt } => match ev {
            IngressEvent::Connected => (IngressPhase::Consuming, IngressAction::Subscribe),
            IngressEvent::ConnectFailed => {
                let next = if attempt < u32::MAX {
                    (attempt + 1) as u32
                } else {
                    attempt
                };
                (
                    IngressPhase::Connecting { attempt: next },
                    IngressAction::ConnectAfter { delay_ms: retry_delay(b, next, jitter) },
                )
            },
            _ => (phase, IngressAction::Wait),
        },
        _ => match ev {
            IngressEvent::ConnectionLost => (
                IngressPhase::Connecting { attempt: 0 },
                IngressAction::ConnectAfter { delay_ms: retry_delay(b, 0, jitter) },
            ),
            _ => match phase {
                IngressPhase::Consuming => match ev {
                    IngressEvent::Delivery { tag, decoded } => if decoded {
                        (IngressPhase::HandingOff { tag }, IngressAction::Submit { tag })
                    } else {
                        (IngressPhase::Consuming, IngressAction::Ack { tag })
                    },
                    _ => (phase, IngressAction::Wait),
                },
                IngressPhase::HandingOff { tag } => match ev {
                    IngressEvent::HandedOff => (IngressPhase::Consuming, IngressAction::Ack { tag }),
                    IngressEvent::SubmitTimedOut => (
                        IngressPhase::Paused { tag },
                        IngressAction::PauseConsuming,
                    ),
                    _ => (phase, IngressAction::Wait),
                },
                IngressPhase::Paused { tag } => match ev {
                    IngressEvent::QueueHasRoom => (
                        IngressPhase::HandingOff { tag },
                        IngressAction::Submit { tag },
                    ),
                    _ => (phase, IngressAction::Wait),
                },
                _ => (phase, IngressAction::Wait),
            },
        },
    }
}

/// One ingress decision; `jitter` is a random draw for the reconnect wait.
pub fn ingress_step(phase: IngressPhase, ev: IngressEvent, b: &Backoff, jitter: u64) -> (r: (
    IngressPhase,
    IngressAction,
))
    ensures
        r == ingress_next(phase, ev, *b, jitter),
{
    match phase {
        IngressPhase::Connecting { attempt } => match ev {
            IngressEvent::Connected => (IngressPhase::Consuming, IngressAction::Subscribe),
            IngressEvent::ConnectFailed => {
                let next = if attempt < u32::MAX {
                    attempt + 1
                } else {
                    attempt
                };
                (
                    IngressPhase::Connecting { attempt: next },
                    IngressAction::ConnectAfter { delay_ms: b.delay_ms(next, jitter) },
                )
            },
            _ => (phase, IngressAction::Wait),
        },
        _ => match ev {
            IngressEvent::ConnectionLost => (
                IngressPhase::Connecting { attempt: 0 },
                IngressAction::ConnectAfter { delay_ms: b.delay_ms(0, jitter) },
            ),
            _ => match phase {
                IngressPhase::Consuming => match ev {
                    IngressEvent::Delivery { tag, decoded } => if decoded {
                        (IngressPhase::HandingOff { tag }, IngressAction::Submit { tag })
                    } else {
                        (IngressPhase::Consuming, IngressAction::Ack { tag })
                    },
                    _ => (phase, IngressAction::Wait),
                },
                IngressPhase::HandingOff { tag } => match ev {
                    IngressEvent::HandedOff => (IngressPhase::Consuming, IngressAction::Ack { tag }),
                    IngressEvent::SubmitTimedOut => (
                        IngressPhase::Paused { tag },
                        IngressAction::PauseConsuming,
                    ),
                    _ => (phase, IngressAction::Wait),
                },
                IngressPhase::Paused { tag } => match ev {
                    IngressEvent::QueueHasRoom => (
                        IngressPhase::HandingOff { tag },
                        IngressAction::Submit { tag },
                    ),
                    _ => (phase, IngressAction::Wait),
                },
                _ => (phase, IngressAction::Wait),
            },
        },
    }
}

/// A malformed delivery is acknowledged at once and never handed to the
/// dispatcher, and the next well-formed delivery is handed off as usual.
pub proof fn lemma_malformed_delivery_dropped(bad: u64, good: u64, b: Backoff, j1: u64, j2: u64)
    ensures
        ingress_next(IngressPhase::Consuming, IngressEvent::Delivery { tag: bad, decoded: false }, b, j1)
            == (IngressPhase::Consuming, IngressAction::Ack { tag: bad }),
        ingress_next(IngressPhase::Consuming, IngressEvent::Delivery { tag: good, decoded: true }, b, j2)
            == (IngressPhase::HandingOff { tag: good }, IngressAction::Submit { tag: good }),
{
}

/// A decoded delivery is acknowledged only once the dispatcher has taken it:
/// a timed-out hand-off pauses consumption without acknowledging, and a lost
/// connection acknowledges nothing, so the broker redelivers only what was
/// never acknowledged.
pub proof fn lemma_ack_only_after_hand_off(
    phase: IngressPhase,
    ev: IngressEvent,
    b: Backoff,
    jitter: u64,
    tag: u64,
)
    ensures
        ingress_next(phase, ev, b, jitter).1 == (IngressAction::Ack { tag }) ==> (ev
            == IngressEvent::Delivery { tag, decoded: false } && phase == IngressPhase::Consuming)
            || (phase == IngressPhase::HandingOff { tag } && ev == IngressEvent::HandedOff),
        ev == IngressEvent::ConnectionLost ==> !(ingress_next(phase, ev, b, jitter).1 is Ack),
        ev == IngressEvent::SubmitTimedOut && phase == (IngressPhase::HandingOff { tag })
            ==> ingress_next(phase, ev, b, jitter) == (
            IngressPhase::Paused { tag },
            IngressAction::PauseConsuming,
        ),
{
}

/// Reconnecting: each further failed try waits at least as long as the one
/// before (up to the cap), and a lost connection starts over from the first
/// wait once consuming had resumed.
pub proof fn lemma_reconnect_backs_off(attempt: u32, b: Backoff, jitter: u64)
    requires
        attempt < u32::MAX,
    ensures
        ingress_next(IngressPhase::Connecting { attempt }, IngressEvent::ConnectFailed, b, jitter)
            == (
            IngressPhase::Connecting { attempt: (attempt + 1) as u32 },
            IngressAction::ConnectAfter { delay_ms: retry_delay(b, (attempt + 1) as u32, jitter) },
        ),
        b.ceiling(attempt as nat) <= b.ceiling(attempt as nat + 1),
        ingress_next(IngressPhase::Connecting { attempt }, IngressEvent::Connected, b, jitter)
            == (IngressPhase::Consuming, IngressAction::Subscribe),
        ingress_next(IngressPhase::Consuming, IngressEvent::ConnectionLost, b, jitter) == (
            IngressPhase::Connecting { attempt: 0 },
            IngressAction::ConnectAfter { delay_ms: retry_delay(b, 0, jitter) },
        ),
{
    crate::backoff::lemma_backoff_grows(b.base_ms as nat, b.cap_ms as nat, attempt as nat);
}

} // verus!
