//! Kinds of upstream transport.

use vstd::prelude::*;

verus! {

/// Supported transports.
#[derive(Clone, Copy, Debug, PartialEq, Eq, Structural)]
pub enum TransportType {
    AMQP,
    MQTT,
    Kafka,
    Redis,
}

} // verus!
