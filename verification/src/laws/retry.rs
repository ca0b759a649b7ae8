//! Trying again: how long to wait, how often, and what becomes of a batch.

use vstd::arithmetic::power2::{lemma_pow2_unfold, pow2};
use vstd::prelude::*;

use crate::batch::{at_least_one, backoff_nanos, nanos, RetryConfig};
use crate::event::SpanEvent;
use crate::pipeline::{wait_after, wrote, Writing, WriterHappening};

verus! {

/// The smaller of two.
pub open spec fn least(a: nat, b: nat) -> nat {
    if a <= b {
        a
    } else {
        b
    }
}

/// The first wait is the one that is configured, and each wait is twice the one before it, up to
/// the longest that is allowed. From the sixteenth on they stay as long as they are.
pub proof fn lemma_waits_double(initial: nat, max: nat, attempt: nat)
    requires
        attempt >= 1,
    ensures
        backoff_nanos(initial, max, 1) == least(initial, max),
        attempt < 16 ==> backoff_nanos(initial, max, attempt + 1) == least(
            2 * backoff_nanos(initial, max, attempt),
            max,
        ),
        attempt >= 16 ==> backoff_nanos(initial, max, attempt + 1) == backoff_nanos(
            initial,
            max,
            attempt,
        ),
{
    vstd::arithmetic::power2::lemma2_to64();
    assert(pow2(0) == 1);
    assert(initial * 1 == initial);
    if attempt < 16 {
        let n = (attempt - 1) as nat;
        lemma_pow2_unfold(attempt);
        assert(pow2(attempt) == 2 * pow2(n));
        let a = pow2(n);
        assert(initial * (2 * a) == 2 * (initial * a)) by (nonlinear_arith);
    }
}

/// A batch that has failed once is tried again after the wait that is configured, one that has
/// failed once more after twice as long, and so on up to the longest wait that is allowed.
pub proof fn lemma_waits_between_attempts(retry: RetryConfig, failures: nat)
    requires
        failures >= 1,
    ensures
        wait_after(retry, 1) == least(nanos(retry.initial_backoff), nanos(retry.max_backoff)),
        failures < 16 ==> wait_after(retry, failures + 1) == least(
            2 * wait_after(retry, failures),
            nanos(retry.max_backoff),
        ),
        failures >= 16 ==> wait_after(retry, failures + 1) == wait_after(retry, failures),
{
    lemma_waits_double(nanos(retry.initial_backoff), nanos(retry.max_backoff), failures);
}

/// What has to be at least one is the number given, and one where that is none.
pub proof fn lemma_at_least_one(n: usize)
    ensures
        at_least_one(n) >= 1,
        n >= 1 ==> at_least_one(n) == n,
        n == 0 ==> at_least_one(n) == 1,
{
}

/// So many attempts in a row that have failed.
pub open spec fn failures<A>(n: nat) -> Seq<WriterHappening<A>> {
    Seq::new(n, |i: int| WriterHappening::Written(false))
}

/// A batch that has failed so often, and may be tried again, is still in hand as it came, nothing
/// of it has been acknowledged, and the attempt to come is the next one.
pub proof fn lemma_a_failed_batch_is_tried_again<A>(
    max_attempts: nat,
    idle: Writing<A>,
    events: Seq<SpanEvent>,
    acks: Seq<A>,
    failed: nat,
)
    requires
        events.len() > 0,
        failed < max_attempts || failed == 0,
    ensures
        ({
            let happenings = seq![WriterHappening::Received(events, acks)] + failures(failed);
            let (state, sent) = wrote(max_attempts, idle, happenings);
            &&& state.batch == Some((events, acks))
            &&& state.attempt == failed + 1
            &&& sent == Seq::<A>::empty()
        }),
    decreases failed,
{
    let received = seq![WriterHappening::Received(events, acks)];
    let happenings = received + failures(failed);
    if failed == 0 {
        assert(happenings.drop_last() =~= Seq::empty());
        assert(wrote(max_attempts, idle, happenings.drop_last()).1 =~= Seq::empty());
        assert(wrote(max_attempts, idle, happenings).1 =~= Seq::empty());
    } else {
        lemma_a_failed_batch_is_tried_again(
            max_attempts,
            idle,
            events,
            acks,
            (failed - 1) as nat,
        );
        assert(happenings.drop_last() =~= received + failures((failed - 1) as nat));
        assert(wrote(max_attempts, idle, happenings).1 =~= Seq::empty());
    }
}

/// The attempt after the failed ones settles a batch: where it succeeds, what is acknowledged is
/// all of the batch and nothing else; where it fails and was the last one, nothing is. Either way
/// the batch is out of hand then.
pub proof fn lemma_a_batch_is_settled<A>(
    max_attempts: nat,
    idle: Writing<A>,
    events: Seq<SpanEvent>,
    acks: Seq<A>,
    failed: nat,
    stored: bool,
)
    requires
        events.len() > 0,
        failed < max_attempts || failed == 0,
        stored || failed + 1 >= max_attempts,
    ensures
        ({
            let happenings = seq![WriterHappening::Received(events, acks)] + failures(failed)
                + seq![WriterHappening::Written(stored)];
            let (state, sent) = wrote(max_attempts, idle, happenings);
            &&& state.batch is None
            &&& sent == if stored {
                acks
            } else {
                Seq::empty()
            }
        }),
{
    let front = seq![WriterHappening::Received(events, acks)] + failures(failed);
    let happenings = front + seq![WriterHappening::Written(stored)];
    lemma_a_failed_batch_is_tried_again(max_attempts, idle, events, acks, failed);
    assert(happenings.drop_last() =~= front);
    assert(Seq::<A>::empty() + acks =~= acks);
}

} // verus!
