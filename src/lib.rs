//! Fan-out core of the capteur platform: sensor readings arriving from a
//! broker are handed to every registered sink (live viewers and a storage
//! writer) through bounded per-sink queues.

pub mod queue;
pub mod registry;
pub mod dispatch;
pub mod backoff;
pub mod ingress;
pub mod connection;
pub mod storage;
pub mod transports;
pub mod util;
