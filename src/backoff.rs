//! Capped exponential backoff with jitter.

use vstd::prelude::*;

verus! {

pub open spec fn min_nat(a: nat, b: nat) -> nat {
    if a <= b {
        a
    } else {
        b
    }
}

/// The longest wait before retry number `n` (counting from zero):
/// `min(cap, base * 2^n)`.
pub open spec fn backoff_ceiling(base: nat, cap: nat, n: nat) -> nat
    decreases n,
{
    if n == 0 {
        min_nat(base, cap)
    } else {
        min_nat(cap, 2 * backoff_ceiling(base, cap, (n - 1) as nat))
    }
}

/// A wait drawn from the upper half of `[0, ceiling]` by the random `jitter`.
pub open spec fn jittered(ceiling: nat, jitter: nat) -> nat {
    ceiling / 2 + jitter % ((ceiling - ceiling / 2) as nat + 1)
}

#[derive(Clone, Copy, Debug, PartialEq, Eq, Structural)]
pub struct Backoff {
    pub base_ms: u64,
    pub cap_ms: u64,
}

/// Once a step leaves the ceiling where it was, it stays there.
proof fn lemma_ceiling_fixed(base: nat, cap: nat, i: nat, n: nat)
    requires
        i <= n,
        backoff_ceiling(base, cap, i) == 0 || backoff_ceiling(base, cap, i) == cap,
    ensures
        backoff_ceiling(base, cap, n) == backoff_ceiling(base, cap, i),
    decreases n - i,
{
    if i < n {
        lemma_ceiling_fixed(base, cap, i, (n - 1) as nat);
    }
}

/// The ceiling never goes down from one retry to the next, never passes the
/// cap, and doubles while it is below the cap.
pub proof fn lemma_backoff_grows(base: nat, cap: nat, n: nat)
    ensures
        backoff_ceiling(base, cap, n) <= backoff_ceiling(base, cap, n + 1),
        backoff_ceiling(base, cap, n) <= cap,
        2 * backoff_ceiling(base, cap, n) <= cap ==> backoff_ceiling(base, cap, n + 1) == 2
            * backoff_ceiling(base, cap, n),
        0 < backoff_ceiling(base, cap, n) < cap ==> backoff_ceiling(base, cap, n)
            < backoff_ceiling(base, cap, n + 1),
    decreases n,
{
    if n > 0 {
        lemma_backoff_grows(base, cap, (n - 1) as nat);
    }
}

/// A jittered wait lies between half the ceiling and the ceiling.
pub proof fn lemma_jittered_bounds(ceiling: nat, jitter: nat)
    ensures
        ceiling / 2 <= jittered(ceiling, jitter) <= ceiling,
{
}

impl Backoff {
    pub open spec fn ceiling(&self, n: nat) -> nat {
        backoff_ceiling(self.base_ms as nat, self.cap_ms as nat, n)
    }

    /// The longest wait before retry number `attempt`.
    pub fn ceiling_ms(&self, attempt: u32) -> (r: u64)
        ensures
            r == self.ceiling(attempt as nat),
    {
        let cap = self.cap_ms;
        let mut d: u64 = if self.base_ms <= cap {
            self.base_ms
        } else {
            cap
        };
        let mut i: u32 = 0;
        while i < attempt && 0 < d && d < cap
            invariant
                i <= attempt,
                cap == self.cap_ms,
                d == self.ceiling(i as nat),
            decreases attempt - i,
        {
            d = if d > cap - d {
                cap
            } else {
                d + d
            };
            i = i + 1;
        }
        proof {
            if i < attempt {
                lemma_ceiling_fixed(self.base_ms as nat, cap as nat, i as nat, attempt as nat);
            }
        }
        d
    }

    /// The wait before retry number `attempt`, given a random `jitter`.
    pub fn delay_ms(&self, attempt: u32, jitter: u64) -> (r: u64)
        ensures
            r == jittered(self.ceiling(attempt as nat), jitter as nat),
            self.ceiling(attempt as nat) / 2 <= r <= self.ceiling(attempt as nat),
    {
        let c = self.ceiling_ms(attempt);
        let half = c / 2;
        let r = half + jitter % (c - half + 1);
        proof {
            lemma_jittered_bounds(c as nat, jitter as nat);
        }
        r
    }
}

} // verus!
