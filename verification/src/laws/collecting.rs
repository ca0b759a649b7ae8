//! Collecting and running: when spans are handed on, what goes with them, and how a run ends.

use vstd::prelude::*;

use crate::batch::BatchConfig;
use crate::error::Failure;
use crate::event::{span_size, SpanEvent};
use crate::pipeline::{
    advance, all_acks, all_events, applies, carries_out, collecting, conclusion, events_bytes,
    hands_on, hands_over, kept, orderly, passes, ran, Action, ActionModel, Gathering,
    HappeningModel, Intake, Occasion, RunModel, Timer, Transform, WriteBatch,
};

verus! {

// ---------------------------------------------------------------------------------------------
// Transforms
// ---------------------------------------------------------------------------------------------

/// Without transforms a span goes on as it came.
pub proof fn lemma_without_transforms<T: Transform>(
    before: Seq<T>,
    after: Seq<T>,
    event: SpanEvent,
    result: Option<SpanEvent>,
)
    requires
        before.len() == 0,
        applies(before, after, event, result),
    ensures
        result == Some(event),
        after.len() == 0,
{
}

/// The first transform gets the span as it came. What it makes of the span goes through the other
/// transforms; where it drops the span, the others do not see it and stay as they are.
pub proof fn lemma_transforms_come_one_after_the_other<T: Transform>(
    before: Seq<T>,
    after: Seq<T>,
    event: SpanEvent,
    result: Option<SpanEvent>,
) -> (middle: Option<SpanEvent>)
    requires
        before.len() > 0,
        applies(before, after, event, result),
    ensures
        after.len() == before.len(),
        before[0].turns(event, middle, after[0]),
        match middle {
            Some(changed) => applies(before.skip(1), after.skip(1), changed, result),
            None => result is None && after.skip(1) == before.skip(1),
        },
{
    let states = choose|states: Seq<Option<SpanEvent>>|
        #[trigger] passes(before, after, states) && states[0] == Some(event) && states.last()
            == result;
    assert(hands_on(before, after, states, 0));
    let middle = states[1];
    let rest = states.skip(1);
    match middle {
        Some(changed) => {
            assert forall|i: int| 0 <= i < before.len() - 1 implies #[trigger] hands_on(
                before.skip(1),
                after.skip(1),
                rest,
                i,
            ) by {
                assert(hands_on(before, after, states, i + 1));
            }
            assert(passes(before.skip(1), after.skip(1), rest));
            assert(rest[0] == Some(changed));
            assert(rest.last() == result);
        },
        None => {
            lemma_dropped_stays_dropped(before, after, states, before.len() as int);
            assert forall|i: int| 1 <= i < before.len() implies #[trigger] after[i]
                == before[i] by {
                lemma_dropped_stays_dropped(before, after, states, i);
                assert(hands_on(before, after, states, i));
            }
            assert(after.skip(1) =~= before.skip(1));
        },
    }
    middle
}

proof fn lemma_dropped_stays_dropped<T: Transform>(
    before: Seq<T>,
    after: Seq<T>,
    states: Seq<Option<SpanEvent>>,
    i: int,
)
    requires
        passes(before, after, states),
        1 <= i <= before.len(),
        states[1] is None,
    ensures
        states[i] is None,
    decreases i,
{
    if i > 1 {
        lemma_dropped_stays_dropped(before, after, states, i - 1);
        assert(hands_on(before, after, states, i - 1));
    }
}

/// Of what the transforms return, all that is there is kept, in its order, and nothing else.
pub proof fn lemma_what_is_kept(
    front: Seq<Option<SpanEvent>>,
    back: Seq<Option<SpanEvent>>,
    event: SpanEvent,
)
    ensures
        kept(seq![Some(event)]) == seq![event],
        kept(seq![None::<SpanEvent>]) == Seq::<SpanEvent>::empty(),
        kept(front + back) == kept(front) + kept(back),
{
    reveal_with_fuel(kept, 2);
    assert(seq![Some(event)].drop_last() =~= Seq::empty());
    assert(seq![None::<SpanEvent>].drop_last() =~= Seq::empty());
    assert(kept(seq![Some(event)]) =~= seq![event]);
    assert(kept(seq![None::<SpanEvent>]) =~= Seq::empty());
    lemma_kept_add(front, back);
}

proof fn lemma_kept_add(front: Seq<Option<SpanEvent>>, back: Seq<Option<SpanEvent>>)
    ensures
        kept(front + back) == kept(front) + kept(back),
    decreases back.len(),
{
    if back.len() == 0 {
        assert(front + back =~= front);
        assert(kept(front) + kept(back) =~= kept(front));
    } else {
        lemma_kept_add(front, back.drop_last());
        assert((front + back).drop_last() =~= front + back.drop_last());
        assert(kept(front + back) =~= kept(front) + kept(back));
    }
}

// ---------------------------------------------------------------------------------------------
// Collecting
// ---------------------------------------------------------------------------------------------

/// One batch more adds its spans behind the others, its acknowledgement if it asks for one, and
/// the sizes of its spans.
pub proof fn lemma_a_batch_adds_its_spans<A>(
    intakes: Seq<Intake<A>>,
    intake: Intake<A>,
    events: Seq<SpanEvent>,
    event: SpanEvent,
)
    ensures
        all_events(Seq::<Intake<A>>::empty()).len() == 0,
        all_acks(Seq::<Intake<A>>::empty()).len() == 0,
        events_bytes(Seq::empty()) == 0,
        all_events(intakes.push(intake)) == all_events(intakes) + intake.events,
        intake.ack is Some ==> all_acks(intakes.push(intake)) == all_acks(intakes).push(
            intake.ack->0,
        ),
        intake.ack is None ==> all_acks(intakes.push(intake)) == all_acks(intakes),
        events_bytes(events.push(event)) == events_bytes(events) + span_size(event@),
{
    assert(intakes.push(intake).drop_last() =~= intakes);
    assert(events.push(event).drop_last() =~= events);
}

/// Something is there to be done: a span to write or an acknowledgement to send.
pub open spec fn is_due<A>(intakes: Seq<Intake<A>>) -> bool {
    all_events(intakes).len() > 0 || all_acks(intakes).len() > 0
}

/// The number of spans or the number of bytes has reached what is allowed.
pub open spec fn reaches<A>(intakes: Seq<Intake<A>>, limits: BatchConfig) -> bool {
    ||| all_events(intakes).len() >= limits.max_events
    ||| events_bytes(all_events(intakes)) >= limits.max_bytes
}

/// When a batch comes in, all that was collected is handed on exactly if that reaches one of the
/// two limits, and the time stops. Else all of it is kept and the time runs, from the first batch
/// on.
pub proof fn lemma_handed_on_at_a_limit<A>(
    limits: BatchConfig,
    state: Gathering<A>,
    intake: Intake<A>,
)
    ensures
        ({
            let all = state.intakes.push(intake);
            let (after, handed, timer) = collecting(limits, state, Occasion::Incoming(intake));
            &&& reaches(all, limits) && is_due(all) ==> handed == Some(all) && after.intakes.len()
                == 0
            &&& reaches(all, limits) ==> !after.armed && timer is Clear
            &&& reaches(all, limits) && !is_due(all) ==> handed is None && after.intakes == all
            &&& !reaches(all, limits) ==> handed is None && after.intakes == all && after.armed
            &&& !reaches(all, limits) && state.armed ==> timer is Keep
            &&& !reaches(all, limits) && !state.armed ==> timer is Start
        }),
{
}

/// When the time is up and when the source has finished, all that was collected is handed on, if
/// there is anything to be done for it, and the time stops.
pub proof fn lemma_handed_on_in_time<A>(
    limits: BatchConfig,
    state: Gathering<A>,
    occasion: Occasion<A>,
)
    requires
        occasion is TimeUp || occasion is SourceEnded,
    ensures
        ({
            let (after, handed, timer) = collecting(limits, state, occasion);
            &&& is_due(state.intakes) ==> handed == Some(state.intakes) && after.intakes.len() == 0
            &&& !is_due(state.intakes) ==> handed is None && after.intakes == state.intakes
            &&& !after.armed && timer is Clear
        }),
{
}

/// What waits is always below both limits, and the time runs for it.
pub proof fn lemma_nothing_waits_beyond_the_limits<A>(
    limits: BatchConfig,
    state: Gathering<A>,
    occasion: Occasion<A>,
)
    requires
        limits.max_events >= 1,
        limits.max_bytes >= 1,
        all_events(state.intakes).len() < limits.max_events,
        events_bytes(all_events(state.intakes)) < limits.max_bytes,
        is_due(state.intakes) ==> state.armed,
    ensures
        ({
            let after = collecting(limits, state, occasion).0;
            &&& all_events(after.intakes).len() < limits.max_events
            &&& events_bytes(all_events(after.intakes)) < limits.max_bytes
            &&& is_due(after.intakes) ==> after.armed
        }),
{
    let empty = Seq::<Intake<A>>::empty();
    assert(all_events(empty).len() == 0 && all_acks(empty).len() == 0);
}

/// What is handed on are the spans and the acknowledgements of what was collected, all of them and
/// in their order.
pub proof fn lemma_what_is_handed_on<A>(
    batch: Option<WriteBatch<A>>,
    intakes: Option<Seq<Intake<A>>>,
)
    requires
        hands_over(batch, intakes),
    ensures
        batch is Some <==> intakes is Some,
        batch is Some ==> batch->0.events@ == all_events(intakes->0) && batch->0.acks@ == all_acks(
            intakes->0,
        ),
{
}

// ---------------------------------------------------------------------------------------------
// A run
// ---------------------------------------------------------------------------------------------

/// What is done is what is to be done, with the spans and acknowledgements that go with it.
pub proof fn lemma_what_is_done<A>(action: Action<A>, model: ActionModel<A>)
    requires
        carries_out(action, model),
    ensures
        match model {
            ActionModel::Wait(timer) => action is Wait && action->Wait_0 == timer,
            ActionModel::Deliver(intakes) => action is Deliver && action->Deliver_0.events@
                == all_events(intakes) && action->Deliver_0.acks@ == all_acks(intakes),
            ActionModel::CloseWriter => action is CloseWriter,
            ActionModel::ReleaseSource => action is ReleaseSource,
            ActionModel::Finish(Ok(_)) => action is Finish && action->Finish_0 is Ok,
            ActionModel::Finish(Err(failure)) => action is Finish && action->Finish_0 is Err
                && action->Finish_0->Err_0@ == failure,
        },
{
}

/// A run comes to the error of the writer if there is one, else to that of collecting if there is
/// one, else to what the source came to.
pub proof fn lemma_which_error_counts(
    collected: Result<(), Failure>,
    written: Result<(), Failure>,
    source: Result<(), Failure>,
)
    ensures
        written is Err ==> conclusion(collected, written, source) == written,
        written is Ok && collected is Err ==> conclusion(collected, written, source) == collected,
        written is Ok && collected is Ok ==> conclusion(collected, written, source) == source,
{
}

/// What is collected while batches come in goes to the writer as soon as it is handed on, and
/// after that batches come in again; what is left at the end goes to the writer before it is
/// closed.
pub proof fn lemma_what_is_handed_on_is_delivered<A>(
    limits: BatchConfig,
    state: RunModel<A>,
    happening: HappeningModel<A>,
)
    requires
        happening is Batch || happening is TimeUp || happening is SourceClosed,
    ensures
        ({
            let occasion = match happening {
                HappeningModel::Batch(intake) => Occasion::Incoming(intake),
                HappeningModel::TimeUp => Occasion::TimeUp,
                _ => Occasion::SourceEnded,
            };
            let (gathering, handed, timer) = collecting(limits, state.gathering, occasion);
            let (after, action) = advance(limits, state, happening);
            &&& after.gathering == gathering
            &&& after.collected == state.collected && after.written == state.written
            &&& handed is Some ==> action == ActionModel::Deliver(handed->0)
            &&& handed is Some && happening is SourceClosed ==> after.phase is Closing
            &&& handed is Some && !(happening is SourceClosed) ==> after.phase is Delivering
            &&& handed is None && happening is SourceClosed ==> action is CloseWriter
                && after.phase is AwaitingWriter
            &&& handed is None && !(happening is SourceClosed) ==> action == ActionModel::<
                A,
            >::Wait(timer) && after.phase == state.phase
        }),
{
}

/// What could not be delivered ends collecting with an error, and the writer is closed; what was
/// delivered while batches come in lets them come in again, and the last of it closes the writer.
pub proof fn lemma_after_a_delivery<A>(limits: BatchConfig, state: RunModel<A>, delivered: bool)
    ensures
        ({
            let (after, action) = advance(limits, state, HappeningModel::Delivered(delivered));
            &&& after.gathering == state.gathering && after.written == state.written
            &&& after.collected is Err <==> !delivered || state.collected is Err
            &&& !delivered ==> after.collected->Err_0 == Failure::Other("写入任务已退出"@)
            &&& delivered ==> after.collected == state.collected
            &&& !delivered || state.phase is Closing ==> action is CloseWriter && after.phase
                is AwaitingWriter
            &&& delivered && !(state.phase is Closing) ==> action == ActionModel::<A>::Wait(
                Timer::Clear,
            ) && after.phase is Collecting
        }),
{
}

/// Once the writer has ended, nothing that was collected is kept, so that those who wait for it
/// learn of it, and the source is released; once the source has ended, the run is over.
pub proof fn lemma_after_an_end<A>(
    limits: BatchConfig,
    state: RunModel<A>,
    result: Result<(), Failure>,
)
    ensures
        ({
            let (after, action) = advance(limits, state, HappeningModel::WriterEnded(result));
            &&& after.phase is AwaitingSource
            &&& after.gathering.intakes.len() == 0 && !after.gathering.armed
            &&& after.written == result && after.collected == state.collected
            &&& action is ReleaseSource
        }),
        ({
            let (after, action) = advance(limits, state, HappeningModel::SourceEnded(result));
            &&& after.phase is Done
            &&& action == ActionModel::<A>::Finish(
                if state.written is Err {
                    state.written
                } else if state.collected is Err {
                    state.collected
                } else {
                    result
                },
            )
        }),
{
}

/// The writer has ended somewhere among the happenings.
pub open spec fn writer_has_ended<A>(happenings: Seq<HappeningModel<A>>) -> bool {
    exists|i: int| 0 <= i < happenings.len() && #[trigger] happenings[i] is WriterEnded
}

/// The source is waited for only once the writer has ended: a source may wait for what the writer
/// acknowledges.
pub proof fn lemma_the_writer_ends_before_the_source<A>(
    limits: BatchConfig,
    happenings: Seq<HappeningModel<A>>,
)
    requires
        orderly(limits, happenings),
        ran(limits, happenings).0.phase is AwaitingSource || ran(limits, happenings).0.phase
            is Done,
    ensures
        writer_has_ended(happenings),
    decreases happenings.len(),
{
    if happenings.len() > 0 {
        let front = happenings.drop_last();
        let last = happenings.len() - 1;
        if happenings[last] is WriterEnded {
        } else {
            lemma_the_writer_ends_before_the_source(limits, front);
            let i = choose|i: int| 0 <= i < front.len() && #[trigger] front[i] is WriterEnded;
            assert(happenings[i] == front[i]);
        }
    }
}

} // verus!
