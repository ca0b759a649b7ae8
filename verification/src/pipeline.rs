//! What joins a source to a sink: collecting batches, trying again, finishing in good order.
//!
//! Nothing here waits or runs in parallel. The steps take what has happened and say what is to be
//! done; whoever drives them does it and comes back with what came of it.

use std::time::Duration;

use vstd::prelude::*;

use crate::batch::{
    at_least_one, backoff_nanos, nanos, or_one, BatchConfig, RetryConfig,
};
use crate::error::{Error, Failure};
use crate::event::{span_size, SpanEvent};
use crate::source::Batch;

verus! {

// ---------------------------------------------------------------------------------------------
// Transforms
// ---------------------------------------------------------------------------------------------

/// Changes spans one at a time, or drops them. A transform may keep something from one span to
/// the next.
pub trait Transform: Sized {
    /// Whether a transform that is given `event` may return `result` and be `after` from then on.
    /// A transform that says nothing about this may return anything.
    open spec fn turns(&self, event: SpanEvent, result: Option<SpanEvent>, after: Self) -> bool {
        true
    }

    /// The span to go on with, or nothing to drop it.
    fn transform(&mut self, event: SpanEvent) -> (r: Option<SpanEvent>)
        ensures
            old(self).turns(event, r, *final(self)),
    ;
}

/// Transform `i` makes `states[i + 1]` of `states[i]`; it is left alone where there is nothing
/// to transform any more.
pub open spec fn hands_on<T: Transform>(
    before: Seq<T>,
    after: Seq<T>,
    states: Seq<Option<SpanEvent>>,
    i: int,
) -> bool {
    match states[i] {
        Some(given) => before[i].turns(given, states[i + 1], after[i]),
        None => states[i + 1] is None && after[i] == before[i],
    }
}

/// What is left of a span before the first transform and after each of them.
pub open spec fn passes<T: Transform>(
    before: Seq<T>,
    after: Seq<T>,
    states: Seq<Option<SpanEvent>>,
) -> bool {
    &&& before.len() == after.len()
    &&& states.len() == before.len() + 1
    &&& forall|i: int| 0 <= i < before.len() ==> #[trigger] hands_on(before, after, states, i)
}

/// Transforms one after the other make `result` of `event` and become `after`: each gets what
/// the one before it returned, and those after one that dropped the span are left alone.
pub open spec fn applies<T: Transform>(
    before: Seq<T>,
    after: Seq<T>,
    event: SpanEvent,
    result: Option<SpanEvent>,
) -> bool {
    exists|states: Seq<Option<SpanEvent>>|
        #[trigger] passes(before, after, states) && states[0] == Some(event) && states.last()
            == result
}

/// Gives a span to the transforms in their order. One that returns nothing drops the span.
pub fn apply<T: Transform>(transforms: &mut Vec<T>, event: SpanEvent) -> (r: Option<SpanEvent>)
    ensures
        applies(old(transforms)@, final(transforms)@, event, r),
{
    let ghost before = transforms@;
    let mut current = Some(event);
    let ghost mut states: Seq<Option<SpanEvent>> = seq![current];
    let mut i: usize = 0;
    while i < transforms.len()
        invariant
            transforms@.len() == before.len(),
            i <= before.len(),
            forall|k: int| i <= k < before.len() ==> transforms@[k] == before[k],
            states.len() == i + 1,
            states[0] == Some(event),
            states[i as int] == current,
            forall|k: int|
                0 <= k < i ==> #[trigger] hands_on(before, transforms@, states, k),
        decreases before.len() - i,
    {
        let ghost midway = transforms@;
        let ghost sofar = states;
        current = match current {
            Some(given) => transforms[i].transform(given),
            None => None,
        };
        proof {
            states = states.push(current);
            assert forall|k: int| 0 <= k < i + 1 implies #[trigger] hands_on(
                before,
                transforms@,
                states,
                k,
            ) by {
                if k < i {
                    assert(hands_on(before, midway, sofar, k));
                }
            }
        }
        i += 1;
    }
    assert(passes(before, transforms@, states));
    current
}

/// The transforms make `results` of `events`, one span after the other. `turns` are the
/// transforms before the first span and after each of them.
pub open spec fn sifts<T: Transform>(
    before: Seq<T>,
    after: Seq<T>,
    events: Seq<SpanEvent>,
    results: Seq<Option<SpanEvent>>,
    turns: Seq<Seq<T>>,
) -> bool {
    &&& turns.len() == events.len() + 1
    &&& results.len() == events.len()
    &&& turns[0] == before
    &&& turns.last() == after
    &&& forall|i: int| 0 <= i < events.len() ==> #[trigger] sifted(events, results, turns, i)
}

/// The transforms make `results[i]` of span `i`.
pub open spec fn sifted<T: Transform>(
    events: Seq<SpanEvent>,
    results: Seq<Option<SpanEvent>>,
    turns: Seq<Seq<T>>,
    i: int,
) -> bool {
    applies(turns[i], turns[i + 1], events[i], results[i])
}

/// The results that are there, in their order.
pub open spec fn kept(results: Seq<Option<SpanEvent>>) -> Seq<SpanEvent>
    decreases results.len(),
{
    if results.len() == 0 {
        Seq::empty()
    } else {
        match results.last() {
            Some(event) => kept(results.drop_last()).push(event),
            None => kept(results.drop_last()),
        }
    }
}

/// Gives spans to the transforms, one after the other, and keeps what they return.
pub fn apply_all<T: Transform>(transforms: &mut Vec<T>, events: Vec<SpanEvent>) -> (r: Vec<
    SpanEvent,
>)
    ensures
        exists|results: Seq<Option<SpanEvent>>, turns: Seq<Seq<T>>|
            #[trigger] sifts(old(transforms)@, final(transforms)@, events@, results, turns)
                && r@ == kept(results),
{
    let ghost given = events@;
    let mut out: Vec<SpanEvent> = Vec::new();
    let ghost mut results: Seq<Option<SpanEvent>> = Seq::empty();
    let ghost mut turns: Seq<Seq<T>> = seq![transforms@];
    for event in iter: events
        invariant
            iter.seq() == given,
            results.len() == iter.index(),
            turns.len() == results.len() + 1,
            turns[0] == old(transforms)@,
            turns.last() == transforms@,
            forall|k: int| 0 <= k < results.len() ==> #[trigger] sifted(given, results, turns, k),
            out@ == kept(results),
    {
        let ghost earlier = (results, turns);
        let result = apply(transforms, event);
        proof {
            results = results.push(result);
            turns = turns.push(transforms@);
            assert(results.drop_last() =~= earlier.0);
            assert forall|k: int| 0 <= k < results.len() implies #[trigger] sifted(
                given,
                results,
                turns,
                k,
            ) by {
                if k < earlier.0.len() {
                    assert(sifted(given, earlier.0, earlier.1, k));
                }
            }
        }
        match result {
            Some(changed) => out.push(changed),
            None => {},
        }
    }
    assert(sifts(old(transforms)@, transforms@, given, results, turns));
    out
}

// ---------------------------------------------------------------------------------------------
// Collecting
// ---------------------------------------------------------------------------------------------

/// A batch that came in, as the transforms left it.
pub ghost struct Intake<A> {
    pub events: Seq<SpanEvent>,
    pub ack: Option<A>,
}

/// The spans of several batches, in their order.
pub open spec fn all_events<A>(intakes: Seq<Intake<A>>) -> Seq<SpanEvent>
    decreases intakes.len(),
{
    if intakes.len() == 0 {
        Seq::empty()
    } else {
        all_events(intakes.drop_last()) + intakes.last().events
    }
}

/// The acknowledgements that several batches ask for, in their order.
pub open spec fn all_acks<A>(intakes: Seq<Intake<A>>) -> Seq<A>
    decreases intakes.len(),
{
    if intakes.len() == 0 {
        Seq::empty()
    } else {
        match intakes.last().ack {
            Some(ack) => all_acks(intakes.drop_last()).push(ack),
            None => all_acks(intakes.drop_last()),
        }
    }
}

/// How many bytes spans are reckoned to take.
pub open spec fn events_bytes(events: Seq<SpanEvent>) -> nat
    decreases events.len(),
{
    if events.len() == 0 {
        0
    } else {
        events_bytes(events.drop_last()) + span_size(events.last()@)
    }
}

proof fn lemma_events_bytes_add(a: Seq<SpanEvent>, b: Seq<SpanEvent>)
    ensures
        events_bytes(a + b) == events_bytes(a) + events_bytes(b),
    decreases b.len(),
{
    if b.len() == 0 {
        assert(a + b =~= a);
    } else {
        assert((a + b).drop_last() =~= a + b.drop_last());
        lemma_events_bytes_add(a, b.drop_last());
    }
}

proof fn lemma_events_bytes_step(events: Seq<SpanEvent>, i: int)
    requires
        0 <= i < events.len(),
    ensures
        events_bytes(events.take(i + 1)) == events_bytes(events.take(i)) + span_size(events[i]@),
        events_bytes(events.take(i + 1)) <= events_bytes(events),
{
    assert(events.take(i + 1).drop_last() =~= events.take(i));
    assert(events =~= events.take(i + 1) + events.skip(i + 1));
    lemma_events_bytes_add(events.take(i + 1), events.skip(i + 1));
}

/// Counts how many bytes spans are reckoned to take, on top of `start`. Nothing where that is
/// too many to count.
fn count_bytes(start: usize, events: &Vec<SpanEvent>) -> (r: Option<usize>)
    ensures
        match r {
            Some(bytes) => bytes == start + events_bytes(events@),
            None => start + events_bytes(events@) > usize::MAX,
        },
{
    let mut bytes: usize = start;
    let mut i: usize = 0;
    while i < events.len()
        invariant
            i <= events@.len(),
            bytes == start + events_bytes(events@.take(i as int)),
        decreases events@.len() - i,
    {
        let more = match events[i].checked_size() {
            Some(size) => bytes.checked_add(size),
            None => None,
        };
        proof {
            lemma_events_bytes_step(events@, i as int);
        }
        match more {
            Some(sum) => {
                bytes = sum;
            },
            None => {
                return None;
            },
        }
        i += 1;
    }
    assert(events@.take(i as int) =~= events@);
    Some(bytes)
}

/// Spans on their way to the sink, with the acknowledgements to send once they are stored.
pub struct WriteBatch<A> {
    pub events: Vec<SpanEvent>,
    pub acks: Vec<A>,
}

/// What is being collected.
struct Pending<A> {
    events: Vec<SpanEvent>,
    acks: Vec<A>,
    bytes: usize,
    intakes: Ghost<Seq<Intake<A>>>,
}

impl<A> Pending<A> {
    spec fn wf(&self) -> bool {
        &&& self.events@ == all_events(self.intakes@)
        &&& self.acks@ == all_acks(self.intakes@)
        &&& self.bytes == events_bytes(self.events@)
    }

    fn new() -> (r: Pending<A>)
        ensures
            r.wf(),
            r.intakes@.len() == 0,
    {
        Pending { events: Vec::new(), acks: Vec::new(), bytes: 0, intakes: Ghost(Seq::empty()) }
    }

    /// Takes in a batch.
    fn push(&mut self, batch: Batch<A>)
        requires
            old(self).wf(),
            events_bytes(old(self).events@) + events_bytes(batch.events@) <= usize::MAX,
        ensures
            final(self).wf(),
            final(self).intakes@ == old(self).intakes@.push(
                Intake { events: batch.events@, ack: batch.ack },
            ),
    {
        let ghost intake = Intake { events: batch.events@, ack: batch.ack };
        let mut events = batch.events;
        match count_bytes(self.bytes, &events) {
            Some(bytes) => {
                self.bytes = bytes;
            },
            None => {},
        }
        proof {
            lemma_events_bytes_add(self.events@, events@);
            assert(self.intakes@.push(intake).drop_last() =~= self.intakes@);
        }
        self.events.append(&mut events);
        match batch.ack {
            Some(ack) => {
                self.acks.push(ack);
            },
            None => {},
        }
        self.intakes = Ghost(self.intakes@.push(intake));
    }

    /// Whether one of the limits by number and by size is reached.
    fn is_full(&self, limits: &BatchConfig) -> (r: bool)
        requires
            self.wf(),
        ensures
            r == is_full(self.intakes@, *limits),
    {
        self.events.len() >= limits.max_events || self.bytes >= limits.max_bytes
    }

    /// Everything that was collected. Nothing is left.
    fn take(&mut self) -> (r: WriteBatch<A>)
        requires
            old(self).wf(),
        ensures
            final(self).wf(),
            final(self).intakes@.len() == 0,
            r.events@ == all_events(old(self).intakes@),
            r.acks@ == all_acks(old(self).intakes@),
    {
        let mut events: Vec<SpanEvent> = Vec::new();
        let mut acks: Vec<A> = Vec::new();
        std::mem::swap(&mut self.events, &mut events);
        std::mem::swap(&mut self.acks, &mut acks);
        self.bytes = 0;
        self.intakes = Ghost(Seq::empty());
        WriteBatch { events, acks }
    }

    /// Everything that was collected, unless that is nothing.
    fn hand_off(&mut self) -> (r: Option<WriteBatch<A>>)
        requires
            old(self).wf(),
        ensures
            final(self).wf(),
            final(self).intakes@ == handed_off(old(self).intakes@).0,
            hands_over(r, handed_off(old(self).intakes@).1),
    {
        if self.events.len() == 0 && self.acks.len() == 0 {
            None
        } else {
            let batch = self.take();
            assert(self.intakes@ =~= Seq::empty());
            Some(batch)
        }
    }
}

/// One of the limits by number and by size is reached.
pub open spec fn is_full<A>(intakes: Seq<Intake<A>>, limits: BatchConfig) -> bool {
    all_events(intakes).len() >= limits.max_events || events_bytes(all_events(intakes))
        >= limits.max_bytes
}

/// There is neither a span to write nor an acknowledgement to send.
pub open spec fn is_idle<A>(intakes: Seq<Intake<A>>) -> bool {
    all_events(intakes).len() == 0 && all_acks(intakes).len() == 0
}

/// What is left after handing on what was collected, and what is handed on: all of it, unless
/// there is nothing to do for it.
pub open spec fn handed_off<A>(intakes: Seq<Intake<A>>) -> (
    Seq<Intake<A>>,
    Option<Seq<Intake<A>>>,
) {
    if is_idle(intakes) {
        (intakes, None)
    } else {
        (Seq::empty(), Some(intakes))
    }
}

/// `batch` holds what was collected of `intakes`.
pub open spec fn hands_over<A>(
    batch: Option<WriteBatch<A>>,
    intakes: Option<Seq<Intake<A>>>,
) -> bool {
    match (batch, intakes) {
        (Some(batch), Some(intakes)) => batch.events@ == all_events(intakes) && batch.acks@
            == all_acks(intakes),
        (None, None) => true,
        _ => false,
    }
}

/// What happens while batches are collected.
pub ghost enum Occasion<A> {
    /// A batch came in.
    Incoming(Intake<A>),
    /// The time is up.
    TimeUp,
    /// The source has finished.
    SourceEnded,
}

/// Where collecting stands.
pub ghost struct Gathering<A> {
    /// The batches that came in and were not handed on yet.
    pub intakes: Seq<Intake<A>>,
    /// Whether the time is running.
    pub armed: bool,
}

/// What becomes of the time limit.
#[derive(Clone, Copy, Debug, PartialEq, Eq, Structural)]
pub enum Timer {
    /// It stays as it is.
    Keep,
    /// The time starts to run now.
    Start,
    /// It does not run any more.
    Clear,
}

/// What an occasion leads to: where collecting stands then, what is handed on, and what becomes
/// of the time limit.
pub open spec fn collecting<A>(
    limits: BatchConfig,
    state: Gathering<A>,
    occasion: Occasion<A>,
) -> (Gathering<A>, Option<Seq<Intake<A>>>, Timer) {
    match occasion {
        Occasion::Incoming(intake) => {
            let intakes = state.intakes.push(intake);
            if is_full(intakes, limits) {
                let (left, handed) = handed_off(intakes);
                (Gathering { intakes: left, armed: false }, handed, Timer::Clear)
            } else if state.armed {
                (Gathering { intakes, armed: true }, None, Timer::Keep)
            } else {
                (Gathering { intakes, armed: true }, None, Timer::Start)
            }
        },
        Occasion::TimeUp | Occasion::SourceEnded => {
            let (left, handed) = handed_off(state.intakes);
            (Gathering { intakes: left, armed: false }, handed, Timer::Clear)
        },
    }
}

/// What is to be done after an occasion.
pub struct Step<A> {
    /// What goes to the writer.
    pub hand_off: Option<WriteBatch<A>>,
    pub timer: Timer,
}

/// Collects the batches of a source until there is enough to write.
pub struct Collector<A> {
    limits: BatchConfig,
    pending: Pending<A>,
    armed: bool,
}

impl<A> Collector<A> {
    /// Where collecting stands.
    pub closed spec fn view(&self) -> Gathering<A> {
        Gathering { intakes: self.pending.intakes@, armed: self.armed }
    }

    /// The limits of a batch.
    pub closed spec fn limits(&self) -> BatchConfig {
        self.limits
    }

    pub closed spec fn wf(&self) -> bool {
        self.pending.wf()
    }

    pub fn new(limits: BatchConfig) -> (r: Collector<A>)
        ensures
            r.wf(),
            r.limits() == limits,
            r@ == (Gathering::<A> { intakes: Seq::empty(), armed: false }),
    {
        let r = Collector { limits, pending: Pending::new(), armed: false };
        assert(r.pending.intakes@ =~= Seq::empty());
        r
    }

    /// Whether the bytes of these spans, and of those collected so far, can be counted.
    pub fn fits(&self, events: &Vec<SpanEvent>) -> (r: bool)
        requires
            self.wf(),
        ensures
            r == (events_bytes(all_events(self@.intakes)) + events_bytes(events@) <= usize::MAX),
    {
        count_bytes(self.pending.bytes, events).is_some()
    }

    /// A batch came in, and the transforms are done with it.
    pub fn on_batch(&mut self, batch: Batch<A>) -> (r: Step<A>)
        requires
            old(self).wf(),
            events_bytes(all_events(old(self)@.intakes)) + events_bytes(batch.events@)
                <= usize::MAX,
        ensures
            final(self).wf(),
            final(self).limits() == old(self).limits(),
            ({
                let intake = Intake { events: batch.events@, ack: batch.ack };
                let (state, handed, timer) = collecting(
                    old(self).limits(),
                    old(self)@,
                    Occasion::Incoming(intake),
                );
                final(self)@ == state && hands_over(r.hand_off, handed) && r.timer == timer
            }),
    {
        self.pending.push(batch);
        if self.pending.is_full(&self.limits) {
            self.armed = false;
            Step { hand_off: self.pending.hand_off(), timer: Timer::Clear }
        } else if self.armed {
            Step { hand_off: None, timer: Timer::Keep }
        } else {
            self.armed = true;
            Step { hand_off: None, timer: Timer::Start }
        }
    }

    /// The time is up.
    pub fn on_timer(&mut self) -> (r: Step<A>)
        requires
            old(self).wf(),
        ensures
            final(self).wf(),
            final(self).limits() == old(self).limits(),
            ({
                let (state, handed, timer) = collecting(
                    old(self).limits(),
                    old(self)@,
                    Occasion::TimeUp,
                );
                final(self)@ == state && hands_over(r.hand_off, handed) && r.timer == timer
            }),
    {
        self.armed = false;
        Step { hand_off: self.pending.hand_off(), timer: Timer::Clear }
    }

    /// The source has finished, and no more batches will come.
    pub fn on_source_end(&mut self) -> (r: Step<A>)
        requires
            old(self).wf(),
        ensures
            final(self).wf(),
            final(self).limits() == old(self).limits(),
            ({
                let (state, handed, timer) = collecting(
                    old(self).limits(),
                    old(self)@,
                    Occasion::SourceEnded,
                );
                final(self)@ == state && hands_over(r.hand_off, handed) && r.timer == timer
            }),
    {
        self.armed = false;
        Step { hand_off: self.pending.hand_off(), timer: Timer::Clear }
    }
}

/// The batches that came in on several occasions, in their order.
pub open spec fn incoming<A>(occasions: Seq<Occasion<A>>) -> Seq<Intake<A>>
    decreases occasions.len(),
{
    if occasions.len() == 0 {
        Seq::empty()
    } else {
        match occasions.last() {
            Occasion::Incoming(intake) => incoming(occasions.drop_last()).push(intake),
            _ => incoming(occasions.drop_last()),
        }
    }
}

/// Where collecting stands after several occasions, and what was handed on at each of them.
pub open spec fn collected<A>(
    limits: BatchConfig,
    state: Gathering<A>,
    occasions: Seq<Occasion<A>>,
) -> (Gathering<A>, Seq<Option<Seq<Intake<A>>>>)
    decreases occasions.len(),
{
    if occasions.len() == 0 {
        (state, Seq::empty())
    } else {
        let (before, handed) = collected(limits, state, occasions.drop_last());
        let (after, more, timer) = collecting(limits, before, occasions.last());
        (after, handed.push(more))
    }
}

/// The batches that were handed on, one after the other.
pub open spec fn joined_up<A>(handed: Seq<Option<Seq<Intake<A>>>>) -> Seq<Intake<A>>
    decreases handed.len(),
{
    if handed.len() == 0 {
        Seq::empty()
    } else {
        match handed.last() {
            Some(intakes) => joined_up(handed.drop_last()) + intakes,
            None => joined_up(handed.drop_last()),
        }
    }
}

proof fn lemma_all_events_add<A>(a: Seq<Intake<A>>, b: Seq<Intake<A>>)
    ensures
        all_events(a + b) == all_events(a) + all_events(b),
        all_acks(a + b) == all_acks(a) + all_acks(b),
    decreases b.len(),
{
    if b.len() == 0 {
        assert(a + b =~= a);
        assert(all_events(a) + all_events(b) =~= all_events(a));
        assert(all_acks(a) + all_acks(b) =~= all_acks(a));
    } else {
        assert((a + b).drop_last() =~= a + b.drop_last());
        lemma_all_events_add(a, b.drop_last());
        assert(all_events(a + b) =~= all_events(a) + all_events(b));
        assert(all_acks(a + b) =~= all_acks(a) + all_acks(b));
    }
}

/// Whatever happens, and in whatever order, no batch is lost, none is handed on twice, none is
/// taken apart and none overtakes another: what was handed on, followed by what is still being
/// collected, is what came in. So an acknowledgement goes on together with the spans it is for.
pub proof fn lemma_nothing_is_lost<A>(
    limits: BatchConfig,
    state: Gathering<A>,
    occasions: Seq<Occasion<A>>,
)
    ensures
        ({
            let (after, handed) = collected(limits, state, occasions);
            joined_up(handed) + after.intakes == state.intakes + incoming(occasions)
        }),
    decreases occasions.len(),
{
    if occasions.len() > 0 {
        let (before, earlier) = collected(limits, state, occasions.drop_last());
        let (after, handed) = collected(limits, state, occasions);
        lemma_nothing_is_lost(limits, state, occasions.drop_last());
        assert(handed.drop_last() =~= earlier);
        let came = incoming(occasions.drop_last());
        match occasions.last() {
            Occasion::Incoming(intake) => {
                assert(state.intakes + came.push(intake) =~= (state.intakes + came).push(intake));
                assert((joined_up(earlier) + before.intakes).push(intake) =~= joined_up(earlier)
                    + before.intakes.push(intake));
                assert(joined_up(handed) + after.intakes =~= joined_up(earlier)
                    + before.intakes.push(intake));
            },
            _ => {
                assert(joined_up(handed) + after.intakes =~= joined_up(earlier) + before.intakes);
            },
        }
    } else {
        let handed = collected(limits, state, occasions).1;
        assert(joined_up(handed) + state.intakes =~= state.intakes + incoming(occasions));
    }
}

/// Once the source has finished, every span that came in has been handed on, and so has every
/// acknowledgement that was asked for, in the order in which they came.
pub proof fn lemma_the_end_hands_on_the_rest<A>(
    limits: BatchConfig,
    state: Gathering<A>,
    occasions: Seq<Occasion<A>>,
)
    requires
        occasions.len() > 0,
        occasions.last() is SourceEnded,
    ensures
        ({
            let handed = joined_up(collected(limits, state, occasions).1);
            &&& all_events(handed) == all_events(state.intakes) + all_events(incoming(occasions))
            &&& all_acks(handed) == all_acks(state.intakes) + all_acks(incoming(occasions))
        }),
{
    let (after, handed) = collected(limits, state, occasions);
    lemma_nothing_is_lost(limits, state, occasions);
    lemma_all_events_add(joined_up(handed), after.intakes);
    lemma_all_events_add(state.intakes, incoming(occasions));
    assert(all_events(after.intakes) =~= Seq::empty());
    assert(all_acks(after.intakes) =~= Seq::empty());
    assert(all_events(joined_up(handed)) + all_events(after.intakes) =~= all_events(
        joined_up(handed),
    ));
    assert(all_acks(joined_up(handed)) + all_acks(after.intakes) =~= all_acks(joined_up(handed)));
}

/// The spans of a batch and the acknowledgement it asks for go on together: where batches are
/// handed on in one, the spans of each stand in it side by side, and so does its acknowledgement.
pub proof fn lemma_spans_and_their_acknowledgement_stay_together<A>(
    intakes: Seq<Intake<A>>,
    i: int,
)
    requires
        0 <= i < intakes.len(),
    ensures
        ({
            let start = all_events(intakes.take(i)).len() as int;
            let place = all_acks(intakes.take(i)).len() as int;
            let length = intakes[i].events.len() as int;
            &&& start + length <= all_events(intakes).len()
            &&& all_events(intakes).subrange(start, start + length) == intakes[i].events
            &&& intakes[i].ack matches Some(ack) ==> place < all_acks(intakes).len() && all_acks(
                intakes,
            )[place] == ack
        }),
{
    let before = intakes.take(i);
    let upto = intakes.take(i + 1);
    let rest = intakes.skip(i + 1);
    assert(upto.drop_last() =~= before);
    assert(upto + rest =~= intakes);
    lemma_all_events_add(upto, rest);
    let start = all_events(before).len() as int;
    let length = intakes[i].events.len() as int;
    assert(all_events(intakes).subrange(start, start + length) =~= intakes[i].events);
}

/// Nothing waits without a limit: what is being collected is below both limits, and the time runs
/// for it.
pub open spec fn is_bounded<A>(limits: BatchConfig, state: Gathering<A>) -> bool {
    !is_full(state.intakes, limits) && (is_idle(state.intakes) || state.armed)
}

/// What is being collected stays below both limits, and the time runs as long as there is
/// anything to hand on. So each span is handed on at a limit, when the time is up or at the end.
pub proof fn lemma_collecting_is_bounded<A>(
    limits: BatchConfig,
    state: Gathering<A>,
    occasion: Occasion<A>,
)
    requires
        limits.max_events >= 1,
        limits.max_bytes >= 1,
        is_bounded(limits, state),
    ensures
        is_bounded(limits, collecting(limits, state, occasion).0),
{
    let empty = Seq::<Intake<A>>::empty();
    assert(all_events(empty).len() == 0 && all_acks(empty).len() == 0);
}

/// Collecting begins with nothing that could wait.
pub proof fn lemma_collecting_begins_bounded<A>(limits: BatchConfig)
    requires
        limits.max_events >= 1,
        limits.max_bytes >= 1,
    ensures
        is_bounded(limits, Gathering::<A> { intakes: Seq::empty(), armed: false }),
{
    let empty = Seq::<Intake<A>>::empty();
    assert(all_events(empty).len() == 0 && all_acks(empty).len() == 0);
}

// ---------------------------------------------------------------------------------------------
// Writing
// ---------------------------------------------------------------------------------------------

/// What to do with a batch that could not be stored, once it has been tried often enough.
#[derive(Clone, Copy, Debug, PartialEq, Eq, Structural)]
pub enum OnError {
    /// Stop. Senders that still wait are told that their spans were not stored.
    Stop,
    /// Drop the batch and go on. Spans are lost.
    Drop,
}

/// What to do about a batch that the writer has received.
pub enum Reception<A> {
    /// There is nothing to store: send the acknowledgements.
    Acknowledge(Vec<A>),
    /// Store it.
    Write,
}

/// What to do after an attempt to store a batch.
pub enum Verdict<A> {
    /// It is stored: send the acknowledgements.
    Acknowledge(Vec<A>),
    /// Try again after this long.
    Retry(Duration),
    /// It cannot be stored: stop with this error.
    Stop(Error),
    /// It cannot be stored because of this error: drop it, send no acknowledgement, go on.
    Discard(Error),
}

/// What becomes of a batch.
pub ghost enum Fate {
    /// It is stored, and acknowledged.
    Stored,
    /// It is being tried.
    Trying,
    /// It is given up, and never acknowledged.
    Lost,
}

/// What becomes of a batch by the attempt numbered `attempt`.
pub open spec fn judged(max_attempts: nat, attempt: nat, stored: bool) -> Fate {
    if stored {
        Fate::Stored
    } else if attempt < max_attempts {
        Fate::Trying
    } else {
        Fate::Lost
    }
}

/// Where writing stands.
pub ghost struct Writing<A> {
    /// The spans that are being stored and their acknowledgements.
    pub batch: Option<(Seq<SpanEvent>, Seq<A>)>,
    /// The number of the attempt that is being made.
    pub attempt: nat,
}

/// What happens while batches are stored.
pub ghost enum WriterHappening<A> {
    /// Spans have come, with the acknowledgements that are asked for.
    Received(Seq<SpanEvent>, Seq<A>),
    /// An attempt to store them has ended, well or not.
    Written(bool),
}

/// What a happening leads to: where writing stands then, and the acknowledgements that are sent.
pub open spec fn writing<A>(
    max_attempts: nat,
    state: Writing<A>,
    happening: WriterHappening<A>,
) -> (Writing<A>, Seq<A>) {
    match happening {
        WriterHappening::Received(events, acks) => if events.len() == 0 {
            (state, acks)
        } else {
            (Writing { batch: Some((events, acks)), attempt: 1 }, Seq::empty())
        },
        WriterHappening::Written(stored) => match judged(max_attempts, state.attempt, stored) {
            Fate::Stored => (Writing { batch: None, ..state }, in_hand(state)),
            Fate::Trying => (Writing { attempt: state.attempt + 1, ..state }, Seq::empty()),
            Fate::Lost => (Writing { batch: None, ..state }, Seq::empty()),
        },
    }
}

/// The acknowledgements of the batch that is being stored.
pub open spec fn in_hand<A>(state: Writing<A>) -> Seq<A> {
    match state.batch {
        Some((events, acks)) => acks,
        None => Seq::empty(),
    }
}

/// How many nanoseconds to wait before a batch is tried again that has failed so often.
pub open spec fn wait_after(retry: RetryConfig, failures: nat) -> nat {
    backoff_nanos(nanos(retry.initial_backoff), nanos(retry.max_backoff), failures)
}

/// Stores one batch after the other. It never has more than one in hand.
pub struct Writer<A> {
    retry: RetryConfig,
    on_error: OnError,
    batch: Option<WriteBatch<A>>,
    attempt: usize,
}

impl<A> Writer<A> {
    pub closed spec fn view(&self) -> Writing<A> {
        Writing {
            batch: match self.batch {
                Some(batch) => Some((batch.events@, batch.acks@)),
                None => None,
            },
            attempt: self.attempt as nat,
        }
    }

    pub closed spec fn retry(&self) -> RetryConfig {
        self.retry
    }

    pub closed spec fn on_error(&self) -> OnError {
        self.on_error
    }

    /// Attempts are counted from one.
    pub closed spec fn wf(&self) -> bool {
        self.attempt >= 1
    }

    pub fn new(retry: RetryConfig, on_error: OnError) -> (r: Writer<A>)
        ensures
            r.wf(),
            r.retry() == retry,
            r.on_error() == on_error,
            r@.batch is None,
    {
        Writer { retry, on_error, batch: None, attempt: 1 }
    }

    /// A batch has come. One without spans, all of which were dropped on the way, is acknowledged
    /// in its turn.
    pub fn on_received(&mut self, batch: WriteBatch<A>) -> (r: Reception<A>)
        requires
            old(self).wf(),
            old(self)@.batch is None,
        ensures
            final(self).wf(),
            final(self).retry() == old(self).retry(),
            final(self).on_error() == old(self).on_error(),
            ({
                let (state, acks) = writing(
                    old(self).retry().max_attempts as nat,
                    old(self)@,
                    WriterHappening::Received(batch.events@, batch.acks@),
                );
                final(self)@ == state && match r {
                    Reception::Acknowledge(sent) => batch.events@.len() == 0 && sent@ == acks,
                    Reception::Write => batch.events@.len() > 0,
                }
            }),
    {
        if batch.events.len() == 0 {
            Reception::Acknowledge(batch.acks)
        } else {
            self.batch = Some(batch);
            self.attempt = 1;
            Reception::Write
        }
    }

    /// The spans to store.
    pub fn events(&self) -> (r: Option<&Vec<SpanEvent>>)
        ensures
            match r {
                Some(events) => self@.batch is Some && events@ == self@.batch->Some_0.0,
                None => self@.batch is None,
            },
    {
        match &self.batch {
            Some(batch) => Some(&batch.events),
            None => None,
        }
    }

    /// An attempt to store the batch has ended.
    pub fn on_written(&mut self, outcome: Result<(), Error>) -> (r: Verdict<A>)
        requires
            old(self).wf(),
            old(self)@.batch is Some,
        ensures
            final(self).wf(),
            final(self).retry() == old(self).retry(),
            final(self).on_error() == old(self).on_error(),
            ({
                let (state, acks) = writing(
                    old(self).retry().max_attempts as nat,
                    old(self)@,
                    WriterHappening::Written(outcome is Ok),
                );
                let fate = judged(
                    old(self).retry().max_attempts as nat,
                    old(self)@.attempt,
                    outcome is Ok,
                );
                final(self)@ == state && match r {
                    Verdict::Acknowledge(sent) => fate is Stored && sent@ == acks,
                    Verdict::Retry(wait) => fate is Trying && nanos(wait) == backoff_nanos(
                        nanos(old(self).retry().initial_backoff),
                        nanos(old(self).retry().max_backoff),
                        old(self)@.attempt,
                    ),
                    Verdict::Stop(error) => fate is Lost && old(self).on_error() is Stop && error
                        == outcome->Err_0,
                    Verdict::Discard(error) => fate is Lost && old(self).on_error() is Drop
                        && error == outcome->Err_0,
                }
            }),
            r is Retry ==> nanos(r->Retry_0) == wait_after(old(self).retry(), old(self)@.attempt),
            r is Acknowledge ==> r->Acknowledge_0@ == in_hand(old(self)@),
    {
        match outcome {
            Ok(_) => {
                let mut batch: Option<WriteBatch<A>> = None;
                std::mem::swap(&mut self.batch, &mut batch);
                match batch {
                    Some(stored) => Verdict::Acknowledge(stored.acks),
                    None => Verdict::Acknowledge(Vec::new()),
                }
            },
            Err(error) => {
                if self.attempt < self.retry.max_attempts {
                    let wait = self.retry.backoff(self.attempt);
                    self.attempt += 1;
                    Verdict::Retry(wait)
                } else {
                    self.batch = None;
                    match self.on_error {
                        OnError::Stop => Verdict::Stop(error),
                        OnError::Drop => Verdict::Discard(error),
                    }
                }
            },
        }
    }
}

/// What becomes of a batch whose attempts come out as `outcomes`, from the attempt numbered
/// `attempt` on, and how many attempts are made in all.
pub open spec fn fate(max_attempts: nat, outcomes: Seq<bool>, attempt: nat) -> (Fate, nat)
    decreases outcomes.len() - attempt + 1,
{
    if attempt < 1 || attempt > outcomes.len() {
        (Fate::Trying, (attempt - 1) as nat)
    } else {
        match judged(max_attempts, attempt, outcomes[attempt - 1]) {
            Fate::Trying => fate(max_attempts, outcomes, attempt + 1),
            end => (end, attempt),
        }
    }
}

/// How often a batch is tried at most: as often as is configured, and at least once.
pub open spec fn attempt_limit(max_attempts: nat) -> nat {
    if max_attempts < 1 {
        1
    } else {
        max_attempts
    }
}

/// A batch is tried until it is stored, and at most as often as is configured. It is stored, and
/// acknowledged, exactly where one of those attempts succeeds, and no attempt is made after that.
pub proof fn lemma_fate(max_attempts: nat, outcomes: Seq<bool>, attempt: nat)
    requires
        1 <= attempt <= attempt_limit(max_attempts),
        outcomes.len() >= attempt_limit(max_attempts),
        forall|i: int| 0 <= i < attempt - 1 ==> !outcomes[i],
    ensures
        ({
            let limit = attempt_limit(max_attempts);
            let (end, made) = fate(max_attempts, outcomes, attempt);
            &&& 1 <= made <= limit
            &&& end is Stored <==> exists|i: int| 0 <= i < limit && outcomes[i]
            &&& end is Stored ==> outcomes[made - 1]
            &&& end is Lost ==> made == limit
            &&& !(end is Trying)
            &&& forall|i: int| 0 <= i < made - 1 ==> !outcomes[i]
        }),
    decreases outcomes.len() - attempt + 1,
{
    if !outcomes[attempt - 1] && attempt < max_attempts {
        lemma_fate(max_attempts, outcomes, attempt + 1);
    }
}

/// Where writing stands after several happenings, and all acknowledgements that were sent.
pub open spec fn wrote<A>(
    max_attempts: nat,
    state: Writing<A>,
    happenings: Seq<WriterHappening<A>>,
) -> (Writing<A>, Seq<A>)
    decreases happenings.len(),
{
    if happenings.len() == 0 {
        (state, Seq::empty())
    } else {
        let (before, sent) = wrote(max_attempts, state, happenings.drop_last());
        let (after, more) = writing(max_attempts, before, happenings.last());
        (after, sent + more)
    }
}

/// A batch comes only when there is none in hand, and attempts are made only when there is one.
pub open spec fn one_at_a_time<A>(
    max_attempts: nat,
    state: Writing<A>,
    happenings: Seq<WriterHappening<A>>,
) -> bool
    decreases happenings.len(),
{
    happenings.len() > 0 ==> {
        let before = wrote(max_attempts, state, happenings.drop_last()).0;
        &&& one_at_a_time(max_attempts, state, happenings.drop_last())
        &&& happenings.last() is Received <==> before.batch is None
    }
}

/// The acknowledgements that were asked for, in the order of the batches, without those of
/// batches that were given up.
pub open spec fn owed<A>(
    max_attempts: nat,
    state: Writing<A>,
    happenings: Seq<WriterHappening<A>>,
) -> Seq<A>
    decreases happenings.len(),
{
    if happenings.len() == 0 {
        in_hand(state)
    } else {
        let before = wrote(max_attempts, state, happenings.drop_last()).0;
        let earlier = owed(max_attempts, state, happenings.drop_last());
        match happenings.last() {
            WriterHappening::Received(events, acks) => earlier + acks,
            WriterHappening::Written(stored) => if judged(max_attempts, before.attempt, stored)
                is Lost {
                earlier.take(earlier.len() - in_hand(before).len())
            } else {
                earlier
            },
        }
    }
}

/// Acknowledgements are sent in the order of the batches: those that were sent, followed by those
/// of the batch in hand, are all that were asked for but for those of batches that were given up.
/// No batch is acknowledged before the ones in front of it are settled.
pub proof fn lemma_acknowledged_in_order<A>(
    max_attempts: nat,
    state: Writing<A>,
    happenings: Seq<WriterHappening<A>>,
)
    requires
        one_at_a_time(max_attempts, state, happenings),
    ensures
        ({
            let (after, sent) = wrote(max_attempts, state, happenings);
            sent + in_hand(after) == owed(max_attempts, state, happenings)
        }),
    decreases happenings.len(),
{
    let (after, sent) = wrote(max_attempts, state, happenings);
    if happenings.len() == 0 {
        assert(sent + in_hand(after) =~= in_hand(state));
    } else {
        let front = happenings.drop_last();
        let (before, earlier) = wrote(max_attempts, state, front);
        lemma_acknowledged_in_order(max_attempts, state, front);
        match happenings.last() {
            WriterHappening::Received(events, acks) => {
                assert(in_hand(before) =~= Seq::empty());
                assert(earlier + in_hand(before) =~= earlier);
                assert(sent + in_hand(after) =~= earlier + acks);
            },
            WriterHappening::Written(stored) => match judged(
                max_attempts,
                before.attempt,
                stored,
            ) {
                Fate::Stored => {
                    assert(sent + in_hand(after) =~= earlier + in_hand(before));
                },
                Fate::Trying => {
                    assert(sent + in_hand(after) =~= earlier + in_hand(before));
                },
                Fate::Lost => {
                    let all = earlier + in_hand(before);
                    assert(all.take(all.len() - in_hand(before).len()) =~= earlier);
                    assert(sent + in_hand(after) =~= earlier);
                },
            },
        }
    }
}

/// The batches that are settled, in their order: those that an attempt has stored, and those in
/// which there was nothing to store. Each is its spans and its acknowledgements.
pub open spec fn settled<A>(
    max_attempts: nat,
    state: Writing<A>,
    happenings: Seq<WriterHappening<A>>,
) -> Seq<(Seq<SpanEvent>, Seq<A>)>
    decreases happenings.len(),
{
    if happenings.len() == 0 {
        Seq::empty()
    } else {
        let before = wrote(max_attempts, state, happenings.drop_last()).0;
        let earlier = settled(max_attempts, state, happenings.drop_last());
        match happenings.last() {
            WriterHappening::Received(events, acks) => if events.len() == 0 {
                earlier.push((events, acks))
            } else {
                earlier
            },
            WriterHappening::Written(stored) => match before.batch {
                Some(batch) => if stored {
                    earlier.push(batch)
                } else {
                    earlier
                },
                None => earlier,
            },
        }
    }
}

/// The acknowledgements of several batches, in their order.
pub open spec fn acks_of<A>(batches: Seq<(Seq<SpanEvent>, Seq<A>)>) -> Seq<A>
    decreases batches.len(),
{
    if batches.len() == 0 {
        Seq::empty()
    } else {
        acks_of(batches.drop_last()) + batches.last().1
    }
}

/// An acknowledgement means that the spans are stored: what is sent, in whatever way the attempts
/// come out, are the acknowledgements of the batches that were stored, or in which there was
/// nothing to store, and of no others.
pub proof fn lemma_acknowledged_means_stored<A>(
    max_attempts: nat,
    state: Writing<A>,
    happenings: Seq<WriterHappening<A>>,
)
    ensures
        wrote(max_attempts, state, happenings).1 == acks_of(
            settled(max_attempts, state, happenings),
        ),
    decreases happenings.len(),
{
    if happenings.len() > 0 {
        let front = happenings.drop_last();
        let (before, earlier) = wrote(max_attempts, state, front);
        let (after, sent) = wrote(max_attempts, state, happenings);
        let settled_before = settled(max_attempts, state, front);
        let settled_after = settled(max_attempts, state, happenings);
        lemma_acknowledged_means_stored(max_attempts, state, front);
        if settled_after.len() > settled_before.len() {
            assert(settled_after.drop_last() =~= settled_before);
        } else {
            assert(sent =~= earlier);
        }
    }
}

/// The spans of several batches, in their order.
pub open spec fn spans_in<A>(batches: Seq<(Seq<SpanEvent>, Seq<A>)>) -> Seq<SpanEvent>
    decreases batches.len(),
{
    if batches.len() == 0 {
        Seq::empty()
    } else {
        spans_in(batches.drop_last()) + batches.last().0
    }
}

/// The spans of the batch that is being stored.
pub open spec fn spans_in_hand<A>(state: Writing<A>) -> Seq<SpanEvent> {
    match state.batch {
        Some((events, acks)) => events,
        None => Seq::empty(),
    }
}

/// The spans that have come to the writer, in their order.
pub open spec fn spans_received<A>(happenings: Seq<WriterHappening<A>>) -> Seq<SpanEvent>
    decreases happenings.len(),
{
    if happenings.len() == 0 {
        Seq::empty()
    } else {
        match happenings.last() {
            WriterHappening::Received(events, acks) => spans_received(happenings.drop_last())
                + events,
            WriterHappening::Written(_) => spans_received(happenings.drop_last()),
        }
    }
}

/// No batch was tried so often in vain that it was given up.
pub open spec fn none_given_up<A>(
    max_attempts: nat,
    state: Writing<A>,
    happenings: Seq<WriterHappening<A>>,
) -> bool
    decreases happenings.len(),
{
    happenings.len() > 0 ==> {
        let before = wrote(max_attempts, state, happenings.drop_last()).0;
        &&& none_given_up(max_attempts, state, happenings.drop_last())
        &&& happenings.last() matches WriterHappening::Written(stored) ==> !(judged(
            max_attempts,
            before.attempt,
            stored,
        ) is Lost)
    }
}

/// As long as no batch is given up, the spans that are stored, followed by those of the batch in
/// hand, are all spans that have come, each once and in their order. So where nothing is in hand
/// any more, what came is what was stored.
pub proof fn lemma_what_came_is_stored<A>(
    max_attempts: nat,
    state: Writing<A>,
    happenings: Seq<WriterHappening<A>>,
)
    requires
        one_at_a_time(max_attempts, state, happenings),
        none_given_up(max_attempts, state, happenings),
    ensures
        ({
            let after = wrote(max_attempts, state, happenings).0;
            let stored = spans_in(settled(max_attempts, state, happenings));
            &&& stored + spans_in_hand(after) == spans_in_hand(state) + spans_received(happenings)
            &&& state.batch is None && after.batch is None ==> stored == spans_received(happenings)
        }),
    decreases happenings.len(),
{
    let after = wrote(max_attempts, state, happenings).0;
    let all = settled(max_attempts, state, happenings);
    if happenings.len() == 0 {
        assert(spans_in(all) + spans_in_hand(after) =~= spans_in_hand(state) + spans_received(
            happenings,
        ));
    } else {
        let front = happenings.drop_last();
        let before = wrote(max_attempts, state, front).0;
        let earlier = settled(max_attempts, state, front);
        lemma_what_came_is_stored(max_attempts, state, front);
        if all.len() > earlier.len() {
            assert(all.drop_last() =~= earlier);
        }
        match happenings.last() {
            WriterHappening::Received(events, acks) => {
                assert(spans_in_hand(before) =~= Seq::empty());
                assert(spans_in(earlier) + spans_in_hand(before) =~= spans_in(earlier));
                assert(spans_in(all) + spans_in_hand(after) =~= spans_in(earlier) + events);
                assert(spans_in_hand(state) + (spans_received(front) + events) =~= (spans_in_hand(
                    state,
                ) + spans_received(front)) + events);
            },
            WriterHappening::Written(stored) => {
                assert(spans_in(all) + spans_in_hand(after) =~= spans_in(earlier) + spans_in_hand(
                    before,
                ));
            },
        }
    }
    if state.batch is None && after.batch is None {
        assert(spans_in(all) + spans_in_hand(after) =~= spans_in(all));
        assert(spans_in_hand(state) + spans_received(happenings) =~= spans_received(happenings));
    }
}

// ---------------------------------------------------------------------------------------------
// Beginning and end
// ---------------------------------------------------------------------------------------------

/// What the health check of the sink leads to: an unhealthy sink is refused where health is
/// required, and else its error is given back to be reported.
pub fn start_up(require_healthy: bool, health: Result<(), Error>) -> (r: Result<Option<Error>, Error>)
    ensures
        match health {
            Ok(_) => r == Ok::<Option<Error>, Error>(None),
            Err(error) => if require_healthy {
                r == Err::<Option<Error>, Error>(error)
            } else {
                r == Ok::<Option<Error>, Error>(Some(error))
            },
        },
{
    match health {
        Ok(_) => Ok(None),
        Err(error) => {
            if require_healthy {
                Err(error)
            } else {
                Ok(Some(error))
            }
        },
    }
}

/// What handing a batch to the writer leads to.
pub fn delivery(delivered: bool) -> (r: Result<(), Error>)
    ensures
        r is Ok <==> delivered,
        r is Err ==> r->Err_0@ == Failure::Other("写入任务已退出"@),
{
    if delivered {
        Ok(())
    } else {
        Err(Error::other("写入任务已退出"))
    }
}

/// What a task came to. One that broke down is an error with what is known about it.
pub fn flatten(finished: Result<Result<(), Error>, String>) -> (r: Result<(), Error>)
    ensures
        match finished {
            Ok(outcome) => r == outcome,
            Err(cause) => r is Err && r->Err_0@ == Failure::Other("任务异常退出: "@ + cause@),
        },
{
    match finished {
        Ok(outcome) => outcome,
        Err(cause) => {
            let mut text = "任务异常退出: ".to_owned();
            text.push_str(cause.as_str());
            Err(Error::Other(text))
        },
    }
}

/// What the whole comes to. The error of the writer comes first, since it is what brought the
/// others about; then the one of collecting; then the one of the source.
pub fn conclude(
    collecting: Result<(), Error>,
    writing: Result<(), Error>,
    source: Result<(), Error>,
) -> (r: Result<(), Error>)
    ensures
        r == if writing is Err {
            writing
        } else if collecting is Err {
            collecting
        } else {
            source
        },
        outcome_of(r) == conclusion(outcome_of(collecting), outcome_of(writing), outcome_of(source)),
{
    match writing {
        Err(error) => Err(error),
        Ok(_) => match collecting {
            Err(error) => Err(error),
            Ok(_) => source,
        },
    }
}

/// What a result stands for.
pub open spec fn outcome_of(result: Result<(), Error>) -> Result<(), Failure> {
    match result {
        Ok(_) => Ok(()),
        Err(error) => Err(error@),
    }
}

/// What the whole comes to, by what writing, collecting and the source come to.
pub open spec fn conclusion(
    collecting: Result<(), Failure>,
    writing: Result<(), Failure>,
    source: Result<(), Failure>,
) -> Result<(), Failure> {
    if writing is Err {
        writing
    } else if collecting is Err {
        collecting
    } else {
        source
    }
}

/// How far a run has come.
#[derive(Clone, Copy, Debug, PartialEq, Eq, Structural)]
pub enum Phase {
    /// Batches are being collected.
    Collecting,
    /// What was collected is on its way to the writer.
    Delivering,
    /// The last of what was collected is on its way to the writer.
    Closing,
    /// The writer finishes what it has.
    AwaitingWriter,
    /// The source finishes.
    AwaitingSource,
    Done,
}

/// What happens during a run.
pub enum Happening<A> {
    /// A batch came in, and the transforms are done with it.
    Batch(Batch<A>),
    /// The time is up.
    TimeUp,
    /// No more batches will come in.
    SourceClosed,
    /// What was handed on has reached the writer, or could not reach it.
    Delivered(bool),
    /// The writer has ended.
    WriterEnded(Result<(), Error>),
    /// The source has ended.
    SourceEnded(Result<(), Error>),
}

/// What a [`Happening`] stands for.
pub ghost enum HappeningModel<A> {
    Batch(Intake<A>),
    TimeUp,
    SourceClosed,
    Delivered(bool),
    WriterEnded(Result<(), Failure>),
    SourceEnded(Result<(), Failure>),
}

impl<A> Happening<A> {
    pub open spec fn view(&self) -> HappeningModel<A> {
        match self {
            Happening::Batch(batch) => HappeningModel::Batch(
                Intake { events: batch.events@, ack: batch.ack },
            ),
            Happening::TimeUp => HappeningModel::TimeUp,
            Happening::SourceClosed => HappeningModel::SourceClosed,
            Happening::Delivered(delivered) => HappeningModel::Delivered(*delivered),
            Happening::WriterEnded(result) => HappeningModel::WriterEnded(outcome_of(*result)),
            Happening::SourceEnded(result) => HappeningModel::SourceEnded(outcome_of(*result)),
        }
    }
}

/// What is to be done next.
pub enum Action<A> {
    /// Wait for a batch, for the time to be up or for the writer to end by itself.
    Wait(Timer),
    /// Hand this on to the writer.
    Deliver(WriteBatch<A>),
    /// Nothing more goes to the writer: wait until it ends.
    CloseWriter,
    /// Take no more batches, stop the source and wait until it ends.
    ReleaseSource,
    /// The run is over, and this is what it comes to.
    Finish(Result<(), Error>),
}

/// What an [`Action`] stands for.
pub ghost enum ActionModel<A> {
    Wait(Timer),
    Deliver(Seq<Intake<A>>),
    CloseWriter,
    ReleaseSource,
    Finish(Result<(), Failure>),
}

/// `action` does what `model` says.
pub open spec fn carries_out<A>(action: Action<A>, model: ActionModel<A>) -> bool {
    match (action, model) {
        (Action::Wait(a), ActionModel::Wait(b)) => a == b,
        (Action::Deliver(batch), ActionModel::Deliver(intakes)) => hands_over(
            Some(batch),
            Some(intakes),
        ),
        (Action::CloseWriter, ActionModel::CloseWriter) => true,
        (Action::ReleaseSource, ActionModel::ReleaseSource) => true,
        (Action::Finish(a), ActionModel::Finish(b)) => outcome_of(a) == b,
        _ => false,
    }
}

/// Where a run stands.
pub ghost struct RunModel<A> {
    pub phase: Phase,
    pub gathering: Gathering<A>,
    /// What collecting has come to so far.
    pub collected: Result<(), Failure>,
    /// What writing has come to so far.
    pub written: Result<(), Failure>,
}

/// What may happen in a phase.
pub open spec fn may_happen<A>(phase: Phase, happening: HappeningModel<A>) -> bool {
    match happening {
        HappeningModel::Batch(_) | HappeningModel::TimeUp | HappeningModel::SourceClosed => phase
            is Collecting,
        HappeningModel::Delivered(_) => phase is Delivering || phase is Closing,
        HappeningModel::WriterEnded(_) => phase is Collecting || phase is AwaitingWriter,
        HappeningModel::SourceEnded(_) => phase is AwaitingSource,
    }
}

/// What collecting sees of what happens.
pub open spec fn occasion_of<A>(happening: HappeningModel<A>) -> Occasion<A> {
    match happening {
        HappeningModel::Batch(intake) => Occasion::Incoming(intake),
        HappeningModel::TimeUp => Occasion::TimeUp,
        _ => Occasion::SourceEnded,
    }
}

/// What a happening leads to: where the run stands then, and what is to be done next.
///
/// The writer ends before the source is waited for, since the source may wait for what the writer
/// acknowledges; and what was collected and not handed on is let go before that too, so that
/// those who wait for it learn that it was not stored.
pub open spec fn advance<A>(
    limits: BatchConfig,
    state: RunModel<A>,
    happening: HappeningModel<A>,
) -> (RunModel<A>, ActionModel<A>) {
    match happening {
        HappeningModel::Batch(_) | HappeningModel::TimeUp => {
            let (gathering, handed, timer) = collecting(
                limits,
                state.gathering,
                occasion_of(happening),
            );
            match handed {
                Some(intakes) => (
                    RunModel { phase: Phase::Delivering, gathering, ..state },
                    ActionModel::Deliver(intakes),
                ),
                None => (RunModel { gathering, ..state }, ActionModel::Wait(timer)),
            }
        },
        HappeningModel::SourceClosed => {
            let (gathering, handed, timer) = collecting(
                limits,
                state.gathering,
                occasion_of(happening),
            );
            match handed {
                Some(intakes) => (
                    RunModel { phase: Phase::Closing, gathering, ..state },
                    ActionModel::Deliver(intakes),
                ),
                None => (
                    RunModel { phase: Phase::AwaitingWriter, gathering, ..state },
                    ActionModel::CloseWriter,
                ),
            }
        },
        HappeningModel::Delivered(delivered) => if !delivered {
            (
                RunModel {
                    phase: Phase::AwaitingWriter,
                    collected: Err(Failure::Other("写入任务已退出"@)),
                    ..state
                },
                ActionModel::CloseWriter,
            )
        } else if state.phase is Closing {
            (RunModel { phase: Phase::AwaitingWriter, ..state }, ActionModel::CloseWriter)
        } else {
            (RunModel { phase: Phase::Collecting, ..state }, ActionModel::Wait(Timer::Clear))
        },
        HappeningModel::WriterEnded(result) => (
            RunModel {
                phase: Phase::AwaitingSource,
                gathering: Gathering { intakes: Seq::empty(), armed: false },
                written: result,
                ..state
            },
            ActionModel::ReleaseSource,
        ),
        HappeningModel::SourceEnded(result) => (
            RunModel { phase: Phase::Done, collected: Ok(()), written: Ok(()), ..state },
            ActionModel::Finish(conclusion(state.collected, state.written, result)),
        ),
    }
}

/// Where a run begins.
pub open spec fn beginning<A>() -> RunModel<A> {
    RunModel {
        phase: Phase::Collecting,
        gathering: Gathering { intakes: Seq::empty(), armed: false },
        collected: Ok(()),
        written: Ok(()),
    }
}

/// A run from the first batch to the end.
pub struct Run<A> {
    limits: BatchConfig,
    collector: Collector<A>,
    phase: Phase,
    collected: Result<(), Error>,
    written: Result<(), Error>,
}

impl<A> Run<A> {
    pub closed spec fn view(&self) -> RunModel<A> {
        RunModel {
            phase: self.phase,
            gathering: self.collector@,
            collected: outcome_of(self.collected),
            written: outcome_of(self.written),
        }
    }

    /// The limits of a batch.
    pub closed spec fn limits(&self) -> BatchConfig {
        self.limits
    }

    pub closed spec fn wf(&self) -> bool {
        self.collector.wf() && self.collector.limits() == self.limits
    }

    /// A run that begins. The first thing to do is to wait.
    pub fn new(limits: BatchConfig) -> (r: Run<A>)
        ensures
            r.wf(),
            r.limits() == limits,
            r@ == beginning::<A>(),
    {
        Run {
            limits: limits.clone(),
            collector: Collector::new(limits),
            phase: Phase::Collecting,
            collected: Ok(()),
            written: Ok(()),
        }
    }

    /// Whether the bytes of these spans, and of those collected so far, can be counted.
    pub fn fits(&self, events: &Vec<SpanEvent>) -> (r: bool)
        requires
            self.wf(),
        ensures
            r == (events_bytes(all_events(self@.gathering.intakes)) + events_bytes(events@)
                <= usize::MAX),
    {
        self.collector.fits(events)
    }

    fn on_batch(&mut self, batch: Batch<A>) -> (r: Action<A>)
        requires
            old(self).wf(),
            events_bytes(all_events(old(self)@.gathering.intakes)) + events_bytes(batch.events@)
                <= usize::MAX,
        ensures
            final(self).wf(),
            final(self).limits() == old(self).limits(),
            ({
                let (state, action) = advance(
                    old(self).limits(),
                    old(self)@,
                    HappeningModel::Batch(Intake { events: batch.events@, ack: batch.ack }),
                );
                final(self)@ == state && carries_out(r, action)
            }),
    {
        let step = self.collector.on_batch(batch);
        match step.hand_off {
            Some(collected) => {
                self.phase = Phase::Delivering;
                Action::Deliver(collected)
            },
            None => Action::Wait(step.timer),
        }
    }

    fn on_timer(&mut self) -> (r: Action<A>)
        requires
            old(self).wf(),
        ensures
            final(self).wf(),
            final(self).limits() == old(self).limits(),
            ({
                let (state, action) = advance(
                    old(self).limits(),
                    old(self)@,
                    HappeningModel::TimeUp,
                );
                final(self)@ == state && carries_out(r, action)
            }),
    {
        let step = self.collector.on_timer();
        match step.hand_off {
            Some(collected) => {
                self.phase = Phase::Delivering;
                Action::Deliver(collected)
            },
            None => Action::Wait(step.timer),
        }
    }

    fn on_source_closed(&mut self) -> (r: Action<A>)
        requires
            old(self).wf(),
        ensures
            final(self).wf(),
            final(self).limits() == old(self).limits(),
            ({
                let (state, action) = advance(
                    old(self).limits(),
                    old(self)@,
                    HappeningModel::SourceClosed,
                );
                final(self)@ == state && carries_out(r, action)
            }),
    {
        let step = self.collector.on_source_end();
        match step.hand_off {
            Some(collected) => {
                self.phase = Phase::Closing;
                Action::Deliver(collected)
            },
            None => {
                self.phase = Phase::AwaitingWriter;
                Action::CloseWriter
            },
        }
    }

    fn on_delivered(&mut self, delivered: bool) -> (r: Action<A>)
        requires
            old(self).wf(),
        ensures
            final(self).wf(),
            final(self).limits() == old(self).limits(),
            ({
                let (state, action) = advance(
                    old(self).limits(),
                    old(self)@,
                    HappeningModel::Delivered(delivered),
                );
                final(self)@ == state && carries_out(r, action)
            }),
    {
        let result = delivery(delivered);
        if result.is_err() {
            self.collected = result;
            self.phase = Phase::AwaitingWriter;
            Action::CloseWriter
        } else if self.phase == Phase::Closing {
            self.phase = Phase::AwaitingWriter;
            Action::CloseWriter
        } else {
            self.phase = Phase::Collecting;
            Action::Wait(Timer::Clear)
        }
    }

    fn on_writer_ended(&mut self, result: Result<(), Error>) -> (r: Action<A>)
        requires
            old(self).wf(),
        ensures
            final(self).wf(),
            final(self).limits() == old(self).limits(),
            ({
                let (state, action) = advance(
                    old(self).limits(),
                    old(self)@,
                    HappeningModel::WriterEnded(outcome_of(result)),
                );
                final(self)@ == state && carries_out(r, action)
            }),
    {
        self.collector = Collector::new(self.limits.clone());
        self.written = result;
        self.phase = Phase::AwaitingSource;
        Action::ReleaseSource
    }

    fn on_source_ended(&mut self, result: Result<(), Error>) -> (r: Action<A>)
        requires
            old(self).wf(),
        ensures
            final(self).wf(),
            final(self).limits() == old(self).limits(),
            ({
                let (state, action) = advance(
                    old(self).limits(),
                    old(self)@,
                    HappeningModel::SourceEnded(outcome_of(result)),
                );
                final(self)@ == state && carries_out(r, action)
            }),
    {
        let mut collected: Result<(), Error> = Ok(());
        let mut written: Result<(), Error> = Ok(());
        std::mem::swap(&mut self.collected, &mut collected);
        std::mem::swap(&mut self.written, &mut written);
        self.phase = Phase::Done;
        Action::Finish(conclude(collected, written, result))
    }

    /// Something has happened. What is to be done next?
    pub fn on(&mut self, happening: Happening<A>) -> (r: Action<A>)
        requires
            old(self).wf(),
            may_happen(old(self)@.phase, happening@),
            happening is Batch ==> events_bytes(all_events(old(self)@.gathering.intakes))
                + events_bytes(happening->Batch_0.events@) <= usize::MAX,
        ensures
            final(self).wf(),
            final(self).limits() == old(self).limits(),
            ({
                let (state, action) = advance(old(self).limits(), old(self)@, happening@);
                final(self)@ == state && carries_out(r, action)
            }),
    {
        match happening {
            Happening::Batch(batch) => self.on_batch(batch),
            Happening::TimeUp => self.on_timer(),
            Happening::SourceClosed => self.on_source_closed(),
            Happening::Delivered(delivered) => self.on_delivered(delivered),
            Happening::WriterEnded(result) => self.on_writer_ended(result),
            Happening::SourceEnded(result) => self.on_source_ended(result),
        }
    }
}

/// Where a run stands after several happenings, and what was done after each of them.
pub open spec fn ran<A>(limits: BatchConfig, happenings: Seq<HappeningModel<A>>) -> (
    RunModel<A>,
    Seq<ActionModel<A>>,
)
    decreases happenings.len(),
{
    if happenings.len() == 0 {
        (beginning(), Seq::empty())
    } else {
        let (state, actions) = ran(limits, happenings.drop_last());
        let (next, action) = advance(limits, state, happenings.last());
        (next, actions.push(action))
    }
}

/// Everything happens in a phase in which it may. The writer ends by itself only with an error.
pub open spec fn orderly<A>(limits: BatchConfig, happenings: Seq<HappeningModel<A>>) -> bool
    decreases happenings.len(),
{
    happenings.len() > 0 ==> {
        let phase = ran(limits, happenings.drop_last()).0.phase;
        &&& orderly(limits, happenings.drop_last())
        &&& may_happen(phase, happenings.last())
        &&& phase is Collecting && happenings.last() is WriterEnded
            ==> happenings.last()->WriterEnded_0 is Err
    }
}

/// The batches that came in during a run, in their order.
pub open spec fn came_in<A>(happenings: Seq<HappeningModel<A>>) -> Seq<Intake<A>>
    decreases happenings.len(),
{
    if happenings.len() == 0 {
        Seq::empty()
    } else {
        match happenings.last() {
            HappeningModel::Batch(intake) => came_in(happenings.drop_last()).push(intake),
            _ => came_in(happenings.drop_last()),
        }
    }
}

/// The batches that went to the writer during a run, in their order.
pub open spec fn went_out<A>(actions: Seq<ActionModel<A>>) -> Seq<Intake<A>>
    decreases actions.len(),
{
    if actions.len() == 0 {
        Seq::empty()
    } else {
        match actions.last() {
            ActionModel::Deliver(intakes) => went_out(actions.drop_last()) + intakes,
            _ => went_out(actions.drop_last()),
        }
    }
}

/// All spans and all acknowledgements that came in went to the writer, in their order.
pub open spec fn all_went_out<A>(
    happenings: Seq<HappeningModel<A>>,
    actions: Seq<ActionModel<A>>,
) -> bool {
    &&& all_events(went_out(actions)) == all_events(came_in(happenings))
    &&& all_acks(went_out(actions)) == all_acks(came_in(happenings))
}

/// What holds at every point of a run.
spec fn is_sound<A>(
    state: RunModel<A>,
    happenings: Seq<HappeningModel<A>>,
    actions: Seq<ActionModel<A>>,
) -> bool {
    let balanced = went_out(actions) + state.gathering.intakes == came_in(happenings);
    match state.phase {
        Phase::Collecting | Phase::Delivering => balanced && state.collected is Ok
            && state.written is Ok,
        Phase::Closing => balanced && is_idle(state.gathering.intakes) && state.collected is Ok
            && state.written is Ok,
        Phase::AwaitingWriter => state.collected is Ok ==> all_went_out(happenings, actions),
        Phase::AwaitingSource => state.collected is Ok && state.written is Ok ==> all_went_out(
            happenings,
            actions,
        ),
        Phase::Done => true,
    }
}

proof fn lemma_idle_has_nothing<A>(went: Seq<Intake<A>>, left: Seq<Intake<A>>)
    requires
        is_idle(left),
    ensures
        all_events(went + left) == all_events(went),
        all_acks(went + left) == all_acks(went),
{
    lemma_all_events_add(went, left);
    assert(all_events(left) =~= Seq::empty());
    assert(all_acks(left) =~= Seq::empty());
    assert(all_events(went) + all_events(left) =~= all_events(went));
    assert(all_acks(went) + all_acks(left) =~= all_acks(went));
}

/// Collecting keeps what there is: a batch is left, or goes out.
proof fn lemma_collecting_keeps<A>(
    limits: BatchConfig,
    state: Gathering<A>,
    occasion: Occasion<A>,
    went: Seq<Intake<A>>,
)
    ensures
        ({
            let (left, handed, timer) = collecting(limits, state, occasion);
            let all = match occasion {
                Occasion::Incoming(intake) => state.intakes.push(intake),
                _ => state.intakes,
            };
            &&& handed is Some ==> went + handed->Some_0 + left.intakes == went + all && is_idle(
                left.intakes,
            )
            &&& handed is None ==> left.intakes == all
            &&& handed is None && occasion is SourceEnded ==> is_idle(all)
        }),
{
    let (left, handed, timer) = collecting(limits, state, occasion);
    let empty = Seq::<Intake<A>>::empty();
    assert(all_events(empty).len() == 0 && all_acks(empty).len() == 0);
    if handed is Some {
        assert(went + handed->Some_0 + left.intakes =~= went + handed->Some_0);
    }
}

proof fn lemma_taking_in_is_sound<A>(
    limits: BatchConfig,
    state: RunModel<A>,
    happenings: Seq<HappeningModel<A>>,
    actions: Seq<ActionModel<A>>,
    happening: HappeningModel<A>,
)
    requires
        is_sound(state, happenings, actions),
        state.phase is Collecting,
        happening is Batch || happening is TimeUp || happening is SourceClosed,
    ensures
        ({
            let (next, action) = advance(limits, state, happening);
            is_sound(next, happenings.push(happening), actions.push(action))
        }),
{
    let (next, action) = advance(limits, state, happening);
    let went = went_out(actions);
    assert(happenings.push(happening).drop_last() =~= happenings);
    assert(actions.push(action).drop_last() =~= actions);
    lemma_collecting_keeps(limits, state.gathering, occasion_of(happening), went);
    match happening {
        HappeningModel::Batch(intake) => {
            assert((went + state.gathering.intakes).push(intake) =~= went
                + state.gathering.intakes.push(intake));
        },
        HappeningModel::SourceClosed => {
            if is_idle(next.gathering.intakes) {
                lemma_idle_has_nothing(went_out(actions.push(action)), next.gathering.intakes);
            }
        },
        _ => {},
    }
}

proof fn lemma_step_is_sound<A>(
    limits: BatchConfig,
    state: RunModel<A>,
    happenings: Seq<HappeningModel<A>>,
    actions: Seq<ActionModel<A>>,
    happening: HappeningModel<A>,
)
    requires
        is_sound(state, happenings, actions),
        may_happen(state.phase, happening),
        state.phase is Collecting && happening is WriterEnded ==> happening->WriterEnded_0 is Err,
    ensures
        ({
            let (next, action) = advance(limits, state, happening);
            is_sound(next, happenings.push(happening), actions.push(action))
        }),
{
    let (next, action) = advance(limits, state, happening);
    assert(happenings.push(happening).drop_last() =~= happenings);
    assert(actions.push(action).drop_last() =~= actions);
    match happening {
        HappeningModel::Delivered(delivered) => {
            if delivered && state.phase is Closing {
                lemma_idle_has_nothing(went_out(actions), state.gathering.intakes);
            }
        },
        HappeningModel::WriterEnded(result) => {},
        HappeningModel::SourceEnded(result) => {},
        _ => {
            lemma_taking_in_is_sound(limits, state, happenings, actions, happening);
        },
    }
}

proof fn lemma_run_is_sound<A>(limits: BatchConfig, happenings: Seq<HappeningModel<A>>)
    requires
        orderly(limits, happenings),
    ensures
        is_sound(ran(limits, happenings).0, happenings, ran(limits, happenings).1),
    decreases happenings.len(),
{
    let (next, actions) = ran(limits, happenings);
    if happenings.len() == 0 {
        assert(went_out(actions) + next.gathering.intakes =~= came_in(happenings));
    } else {
        let front = happenings.drop_last();
        let (state, earlier) = ran(limits, front);
        lemma_run_is_sound(limits, front);
        lemma_step_is_sound(limits, state, front, earlier, happenings.last());
        assert(front.push(happenings.last()) =~= happenings);
    }
}

/// A run in which neither collecting nor writing failed has handed every span that came in to the
/// writer, and every acknowledgement that was asked for, each once and in the order in which they
/// came; what the run comes to is then what the source came to. A run that ends well is such a
/// run.
pub proof fn lemma_a_good_end_leaves_nothing_behind<A>(
    limits: BatchConfig,
    happenings: Seq<HappeningModel<A>>,
)
    requires
        orderly(limits, happenings),
        ran(limits, happenings).0.phase is Done,
    ensures
        happenings.len() > 0,
        happenings.last() is SourceEnded,
        ({
            let before = ran(limits, happenings.drop_last()).0;
            let actions = ran(limits, happenings).1;
            &&& actions.len() > 0
            &&& actions.last() is Finish
            &&& before.collected is Ok && before.written is Ok ==> all_went_out(happenings, actions)
                && actions.last()->Finish_0 == happenings.last()->SourceEnded_0
            &&& actions.last()->Finish_0 is Ok ==> before.collected is Ok && before.written is Ok
        }),
{
    let front = happenings.drop_last();
    let (before, earlier) = ran(limits, front);
    let actions = ran(limits, happenings).1;
    lemma_run_is_sound(limits, front);
    assert(actions.drop_last() =~= earlier);
}

/// A pipeline that is ready to run. `S` is what spans come from, `K` is what stores them and `T`
/// is what changes them on the way.
pub struct Pipeline<S, K, T> {
    pub source: S,
    pub sink: K,
    pub transforms: Vec<T>,
    pub batch: BatchConfig,
    pub retry: RetryConfig,
    /// How many batches the queue before the pipeline holds.
    pub buffer: usize,
    /// Whether the pipeline is refused a start where the sink is not healthy.
    pub require_healthy: bool,
    pub on_error: OnError,
}

/// Puts a pipeline together.
pub struct PipelineBuilder<S, K, T> {
    pub source: Option<S>,
    pub sink: Option<K>,
    pub transforms: Vec<T>,
    pub batch: Option<BatchConfig>,
    pub retry: Option<RetryConfig>,
    pub buffer: Option<usize>,
    pub require_healthy: bool,
    pub on_error: Option<OnError>,
}

impl<S, K, T> Default for PipelineBuilder<S, K, T> {
    fn default() -> (r: PipelineBuilder<S, K, T>)
        ensures
            r.source is None,
            r.sink is None,
            r.transforms@.len() == 0,
            r.batch is None,
            r.retry is None,
            r.buffer is None,
            !r.require_healthy,
            r.on_error is None,
    {
        PipelineBuilder {
            source: None,
            sink: None,
            transforms: Vec::new(),
            batch: None,
            retry: None,
            buffer: None,
            require_healthy: false,
            on_error: None,
        }
    }
}

impl<S, K, T> Pipeline<S, K, T> {
    /// Nothing is set yet.
    pub fn builder() -> (r: PipelineBuilder<S, K, T>)
        ensures
            r.source is None,
            r.sink is None,
            r.transforms@.len() == 0,
            r.batch is None,
            r.retry is None,
            r.buffer is None,
            !r.require_healthy,
            r.on_error is None,
    {
        PipelineBuilder::default()
    }
}

impl<S, K, T> PipelineBuilder<S, K, T> {
    pub fn source(self, source: S) -> (r: PipelineBuilder<S, K, T>)
        ensures
            r == (PipelineBuilder { source: Some(source), ..self }),
    {
        PipelineBuilder { source: Some(source), ..self }
    }

    pub fn sink(self, sink: K) -> (r: PipelineBuilder<S, K, T>)
        ensures
            r == (PipelineBuilder { sink: Some(sink), ..self }),
    {
        PipelineBuilder { sink: Some(sink), ..self }
    }

    /// Adds a transform after those there are.
    pub fn transform(self, transform: T) -> (r: PipelineBuilder<S, K, T>)
        ensures
            r.transforms@ == self.transforms@.push(transform),
            r == (PipelineBuilder { transforms: r.transforms, ..self }),
    {
        let mut transforms = self.transforms;
        transforms.push(transform);
        PipelineBuilder { transforms, ..self }
    }

    pub fn batch(self, batch: BatchConfig) -> (r: PipelineBuilder<S, K, T>)
        ensures
            r == (PipelineBuilder { batch: Some(batch), ..self }),
    {
        PipelineBuilder { batch: Some(batch), ..self }
    }

    pub fn retry(self, retry: RetryConfig) -> (r: PipelineBuilder<S, K, T>)
        ensures
            r == (PipelineBuilder { retry: Some(retry), ..self }),
    {
        PipelineBuilder { retry: Some(retry), ..self }
    }

    /// How many batches the queue holds; at least one. A full queue makes the source wait.
    pub fn buffer(self, buffer: usize) -> (r: PipelineBuilder<S, K, T>)
        ensures
            r == (PipelineBuilder { buffer: Some(at_least_one(buffer)), ..self }),
    {
        PipelineBuilder { buffer: Some(or_one(buffer)), ..self }
    }

    /// Whether the pipeline is refused a start where the sink is not healthy.
    pub fn require_healthy(self, require: bool) -> (r: PipelineBuilder<S, K, T>)
        ensures
            r == (PipelineBuilder { require_healthy: require, ..self }),
    {
        PipelineBuilder { require_healthy: require, ..self }
    }

    pub fn on_error(self, on_error: OnError) -> (r: PipelineBuilder<S, K, T>)
        ensures
            r == (PipelineBuilder { on_error: Some(on_error), ..self }),
    {
        PipelineBuilder { on_error: Some(on_error), ..self }
    }

    /// The pipeline. It needs a source and a sink; anything else that was not set is as usual.
    pub fn build(self) -> (r: Result<Pipeline<S, K, T>, Error>)
        ensures
            r is Ok <==> self.source is Some && self.sink is Some,
            match r {
                Ok(pipeline) => {
                    &&& self.source == Some(pipeline.source)
                    &&& self.sink == Some(pipeline.sink)
                    &&& pipeline.transforms == self.transforms
                    &&& match self.batch {
                        Some(batch) => pipeline.batch == batch,
                        None => pipeline.batch.max_events == 10_000 && pipeline.batch.max_bytes
                            == 8 * 1024 * 1024 && nanos(pipeline.batch.timeout) == 1_000_000_000,
                    }
                    &&& match self.retry {
                        Some(retry) => pipeline.retry == retry,
                        None => pipeline.retry.max_attempts == 5 && nanos(
                            pipeline.retry.initial_backoff,
                        ) == 500_000_000 && nanos(pipeline.retry.max_backoff) == 30_000_000_000,
                    }
                    &&& pipeline.buffer == match self.buffer {
                        Some(buffer) => buffer,
                        None => 64,
                    }
                    &&& pipeline.require_healthy == self.require_healthy
                    &&& pipeline.on_error == match self.on_error {
                        Some(on_error) => on_error,
                        None => OnError::Stop,
                    }
                },
                Err(error) => error@ == if self.source is None {
                    Failure::Config("缺少 source"@)
                } else {
                    Failure::Config("缺少 sink"@)
                },
            },
    {
        let source = match self.source {
            Some(source) => source,
            None => {
                return Err(Error::config("缺少 source"));
            },
        };
        let sink = match self.sink {
            Some(sink) => sink,
            None => {
                return Err(Error::config("缺少 sink"));
            },
        };
        let batch = match self.batch {
            Some(batch) => batch,
            None => BatchConfig::default(),
        };
        let retry = match self.retry {
            Some(retry) => retry,
            None => RetryConfig::default(),
        };
        let buffer: usize = match self.buffer {
            Some(buffer) => buffer,
            None => 64,
        };
        let on_error = match self.on_error {
            Some(on_error) => on_error,
            None => OnError::Stop,
        };
        Ok(
            Pipeline {
                source,
                sink,
                transforms: self.transforms,
                batch,
                retry,
                buffer,
                require_healthy: self.require_healthy,
                on_error,
            },
        )
    }
}

} // verus!
