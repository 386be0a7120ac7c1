//! Retry policy of the storage sink's writer.

use crate::backoff::{jittered, Backoff};
use vstd::prelude::*;

verus! {

#[derive(Clone, Copy, Debug, PartialEq, Eq, Structural)]
pub enum StorageStep {
    /// The message is stored.
    Done,
    /// Try the insert again after the wait.
    RetryAfter { delay_ms: u64 },
    /// The attempt limit is reached: the failure is surfaced.
    GiveUp,
}

/// What follows an insert attempt, the `attempts`-th for this message
/// (counting from one), of at most `max_attempts`.
pub fn after_insert(ok: bool, attempts: u32, max_attempts: u32, b: &Backoff, jitter: u64) -> (r:
    StorageStep)
    requires
        attempts >= 1,
    ensures
        ok ==> r == StorageStep::Done,
        !ok && attempts < max_attempts ==> r == (StorageStep::RetryAfter {
            delay_ms: jittered(b.ceiling((attempts - 1) as nat), jitter as nat) as u64,
        }),
        !ok && attempts >= max_attempts ==> r == StorageStep::GiveUp,
{
    if ok {
        StorageStep::Done
    } else if attempts < max_attempts {
        StorageStep::RetryAfter { delay_ms: b.delay_ms(attempts - 1, jitter) }
    } else {
        StorageStep::GiveUp
    }
}

} // verus!
