//! When a batch is handed on, and how often a failed one is tried again.

use std::time::Duration;

use vstd::arithmetic::power2::{lemma2_to64, lemma_pow2_strictly_increases, pow2};
use vstd::bits::lemma_u32_shl_is_mul;
use vstd::prelude::*;

verus! {

// ---------------------------------------------------------------------------------------------
// Durations
// ---------------------------------------------------------------------------------------------

/// How many nanoseconds a `std::time::Duration` lasts.
pub uninterp spec fn nanos(duration: Duration) -> nat;

/// How many nanoseconds the longest `std::time::Duration` lasts.
pub open spec fn longest() -> nat {
    18_446_744_073_709_551_615 * 1_000_000_000 + 999_999_999
}

/// `Duration::as_nanos`: the whole length in nanoseconds.
pub assume_specification[ Duration::as_nanos ](duration: &Duration) -> (r: u128)
    ensures
        r == nanos(*duration),
        r <= longest(),
;

/// `Duration::as_millis`: the whole milliseconds of the length.
pub assume_specification[ Duration::as_millis ](duration: &Duration) -> (r: u128)
    ensures
        r == nanos(*duration) / 1_000_000,
;

/// `Duration::from_secs`: so many seconds.
pub assume_specification[ Duration::from_secs ](secs: u64) -> (r: Duration)
    ensures
        nanos(r) == secs * 1_000_000_000,
;

/// `Duration::from_millis`: so many milliseconds.
pub assume_specification[ Duration::from_millis ](millis: u64) -> (r: Duration)
    ensures
        nanos(r) == millis * 1_000_000,
;

/// `Duration::saturating_mul`: the product, or the longest duration where the product is longer.
pub assume_specification[ Duration::saturating_mul ](duration: Duration, factor: u32) -> (r:
    Duration)
    ensures
        nanos(r) == if nanos(duration) * factor <= longest() {
            nanos(duration) * factor as nat
        } else {
            longest()
        },
;

// ---------------------------------------------------------------------------------------------
// Batches
// ---------------------------------------------------------------------------------------------

/// When a batch is handed on: as soon as one of the three limits is reached.
#[derive(Debug)]
pub struct BatchConfig {
    /// How many spans.
    pub max_events: usize,
    /// How many bytes, as the spans are reckoned.
    pub max_bytes: usize,
    /// How long after the first span came in.
    pub timeout: Duration,
}

impl Clone for BatchConfig {
    fn clone(&self) -> (r: BatchConfig)
        ensures
            r == *self,
    {
        BatchConfig {
            max_events: self.max_events,
            max_bytes: self.max_bytes,
            timeout: self.timeout,
        }
    }
}

impl Default for BatchConfig {
    fn default() -> (r: BatchConfig)
        ensures
            r.max_events == 10_000,
            r.max_bytes == 8 * 1024 * 1024,
            nanos(r.timeout) == 1_000_000_000,
    {
        BatchConfig {
            max_events: 10_000,
            max_bytes: 8 * 1024 * 1024,
            timeout: Duration::from_secs(1),
        }
    }
}

/// At least one.
pub open spec fn at_least_one(n: usize) -> usize {
    if n < 1 {
        1
    } else {
        n
    }
}

/// The number, or one where it is none.
pub(crate) fn or_one(n: usize) -> (r: usize)
    ensures
        r == at_least_one(n),
{
    if n < 1 {
        1
    } else {
        n
    }
}

impl BatchConfig {
    /// A batch holds at least one span.
    pub fn max_events(self, max_events: usize) -> (r: BatchConfig)
        ensures
            r == (BatchConfig { max_events: at_least_one(max_events), ..self }),
    {
        BatchConfig { max_events: or_one(max_events), ..self }
    }

    /// A batch holds at least one byte.
    pub fn max_bytes(self, max_bytes: usize) -> (r: BatchConfig)
        ensures
            r == (BatchConfig { max_bytes: at_least_one(max_bytes), ..self }),
    {
        BatchConfig { max_bytes: or_one(max_bytes), ..self }
    }

    pub fn timeout(self, timeout: Duration) -> (r: BatchConfig)
        ensures
            r == (BatchConfig { timeout, ..self }),
    {
        BatchConfig { timeout, ..self }
    }
}

// ---------------------------------------------------------------------------------------------
// Retries
// ---------------------------------------------------------------------------------------------

/// How often a write is tried, and how long to wait in between: twice as long each time.
#[derive(Debug)]
pub struct RetryConfig {
    /// How many attempts there are in all, the first one among them.
    pub max_attempts: usize,
    pub initial_backoff: Duration,
    pub max_backoff: Duration,
}

impl Clone for RetryConfig {
    fn clone(&self) -> (r: RetryConfig)
        ensures
            r == *self,
    {
        RetryConfig {
            max_attempts: self.max_attempts,
            initial_backoff: self.initial_backoff,
            max_backoff: self.max_backoff,
        }
    }
}

impl Default for RetryConfig {
    fn default() -> (r: RetryConfig)
        ensures
            r.max_attempts == 5,
            nanos(r.initial_backoff) == 500_000_000,
            nanos(r.max_backoff) == 30_000_000_000,
    {
        RetryConfig {
            max_attempts: 5,
            initial_backoff: Duration::from_millis(500),
            max_backoff: Duration::from_secs(30),
        }
    }
}

/// How often the first wait is doubled after the attempt numbered `attempt` has failed: once for
/// each attempt before it, and fifteen times at most.
pub open spec fn doublings(attempt: nat) -> nat
    recommends
        attempt >= 1,
{
    if attempt <= 16 {
        (attempt - 1) as nat
    } else {
        15
    }
}

/// How many nanoseconds to wait after the attempt numbered `attempt` has failed.
pub open spec fn backoff_nanos(initial: nat, max: nat, attempt: nat) -> nat {
    if initial * pow2(doublings(attempt)) <= max {
        initial * pow2(doublings(attempt))
    } else {
        max
    }
}

impl RetryConfig {
    /// How long to wait after the attempt numbered `attempt` has failed. Attempts are counted
    /// from one.
    pub fn backoff(&self, attempt: usize) -> (r: Duration)
        requires
            attempt >= 1,
        ensures
            nanos(r) == backoff_nanos(
                nanos(self.initial_backoff),
                nanos(self.max_backoff),
                attempt as nat,
            ),
    {
        let shift: u32 = if attempt <= 16 {
            (attempt - 1) as u32
        } else {
            15
        };
        proof {
            lemma2_to64();
            lemma_pow2_strictly_increases(shift as nat, 16);
            lemma_u32_shl_is_mul(1, shift);
        }
        let longer = self.initial_backoff.saturating_mul(1u32 << shift);
        if longer.as_nanos() <= self.max_backoff.as_nanos() {
            longer
        } else {
            self.max_backoff
        }
    }
}

/// The waits never become shorter from one attempt to a later one, and none is longer than the
/// longest that is allowed.
pub proof fn lemma_backoff_grows(initial: nat, max: nat, attempt: nat, later: nat)
    requires
        1 <= attempt <= later,
    ensures
        backoff_nanos(initial, max, attempt) <= backoff_nanos(initial, max, later) <= max,
{
    let a = pow2(doublings(attempt));
    let b = pow2(doublings(later));
    if doublings(attempt) < doublings(later) {
        lemma_pow2_strictly_increases(doublings(attempt), doublings(later));
    }
    assert(initial * a <= initial * b) by (nonlinear_arith)
        requires
            a <= b,
    ;
}

} // verus!
