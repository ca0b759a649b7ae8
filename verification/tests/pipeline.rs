use std::time::Duration;

use tracepipe::batch::{BatchConfig, RetryConfig};
use tracepipe::error::Error;
use tracepipe::event::{SpanEvent, StatusCode};
use tracepipe::pipeline::{
    apply, apply_all, conclude, delivery, flatten, start_up, Action, Collector, Happening,
    OnError, Pipeline, PipelineBuilder, Reception, Run, Timer, Transform, Verdict, WriteBatch,
    Writer,
};
use tracepipe::sink::MemorySink;
use tracepipe::source::{parcel, sent, Batch};
use tracepipe::value::Value;

fn named(name: &str) -> SpanEvent {
    SpanEvent {
        span_name: name.to_owned(),
        ..Default::default()
    }
}

fn names(events: &[SpanEvent]) -> Vec<&str> {
    events.iter().map(|event| event.span_name.as_str()).collect()
}

fn batch(events: &[&str]) -> Batch<u32> {
    Batch::new(events.iter().map(|name| named(name)).collect())
}

fn acked(events: &[&str], ack: u32) -> Batch<u32> {
    Batch::with_ack(events.iter().map(|name| named(name)).collect(), ack)
}

fn limits() -> BatchConfig {
    BatchConfig::default().max_events(3)
}

#[test]
fn collects_until_there_are_enough_spans() {
    let mut collector: Collector<u32> = Collector::new(limits());
    let step = collector.on_batch(batch(&["a"]));
    assert!(step.hand_off.is_none());
    assert_eq!(step.timer, Timer::Start);
    let step = collector.on_batch(acked(&["b"], 7));
    assert!(step.hand_off.is_none());
    assert_eq!(step.timer, Timer::Keep);
    let step = collector.on_batch(acked(&["c", "d"], 8));
    let handed = step.hand_off.unwrap();
    assert_eq!(names(&handed.events), ["a", "b", "c", "d"]);
    assert_eq!(handed.acks, [7, 8]);
    assert_eq!(step.timer, Timer::Clear);
    let step = collector.on_batch(batch(&["e"]));
    assert!(step.hand_off.is_none());
    assert_eq!(step.timer, Timer::Start);
}

#[test]
fn collects_until_there_are_enough_bytes() {
    let size = named("a").estimated_size();
    let mut collector: Collector<u32> =
        Collector::new(BatchConfig::default().max_bytes(2 * size));
    assert!(collector.on_batch(batch(&["a"])).hand_off.is_none());
    let step = collector.on_batch(batch(&["b"]));
    assert_eq!(names(&step.hand_off.unwrap().events), ["a", "b"]);
    assert!(collector.fits(&vec![named("c")]));
}

#[test]
fn time_and_the_end_hand_on_what_there_is() {
    let mut collector: Collector<u32> = Collector::new(limits());
    assert!(collector.on_timer().hand_off.is_none());
    collector.on_batch(acked(&["a"], 1));
    let step = collector.on_timer();
    let handed = step.hand_off.unwrap();
    assert_eq!(names(&handed.events), ["a"]);
    assert_eq!(handed.acks, [1]);
    assert_eq!(step.timer, Timer::Clear);
    // All spans of this batch were dropped on the way; it is acknowledged in its turn.
    collector.on_batch(acked(&[], 2));
    let handed = collector.on_source_end().hand_off.unwrap();
    assert!(handed.events.is_empty());
    assert_eq!(handed.acks, [2]);
    assert!(collector.on_source_end().hand_off.is_none());
}

#[test]
fn nothing_is_lost_whatever_happens() {
    let mut collector: Collector<u32> = Collector::new(limits());
    let mut stored = MemorySink::new();
    let mut acks = Vec::new();
    let mut expect = Vec::new();
    for i in 0..50u32 {
        let name = format!("s{i}");
        expect.push(name.clone());
        let step = if i % 7 == 0 {
            collector.on_batch(acked(&[&name], i))
        } else {
            collector.on_batch(batch(&[&name]))
        };
        let mut handed: Vec<WriteBatch<u32>> = step.hand_off.into_iter().collect();
        if i % 5 == 0 {
            handed.extend(collector.on_timer().hand_off);
        }
        for one in handed {
            stored.write(&one.events);
            acks.extend(one.acks);
        }
    }
    if let Some(one) = collector.on_source_end().hand_off {
        stored.write(&one.events);
        acks.extend(one.acks);
    }
    assert_eq!(names(stored.events()), expect);
    assert_eq!(stored.len(), 50);
    assert!(!stored.is_empty());
    assert_eq!(acks, [0, 7, 14, 21, 28, 35, 42, 49]);
}

fn retry(max_attempts: usize) -> RetryConfig {
    RetryConfig {
        max_attempts,
        initial_backoff: Duration::from_millis(10),
        max_backoff: Duration::from_millis(20),
    }
}

fn write_batch(events: &[&str], acks: &[u32]) -> WriteBatch<u32> {
    WriteBatch {
        events: events.iter().map(|name| named(name)).collect(),
        acks: acks.to_vec(),
    }
}

fn failure() -> Result<(), Error> {
    Err(Error::other("存储挂了"))
}

#[test]
fn a_batch_is_acknowledged_once_it_is_stored() {
    let mut writer: Writer<u32> = Writer::new(retry(3), OnError::Stop);
    assert!(writer.events().is_none());
    assert!(matches!(
        writer.on_received(write_batch(&["a"], &[1, 2])),
        Reception::Write
    ));
    assert_eq!(names(writer.events().unwrap()), ["a"]);
    match writer.on_written(failure()) {
        Verdict::Retry(wait) => assert_eq!(wait, Duration::from_millis(10)),
        _ => panic!("try again"),
    }
    assert_eq!(names(writer.events().unwrap()), ["a"]);
    match writer.on_written(failure()) {
        Verdict::Retry(wait) => assert_eq!(wait, Duration::from_millis(20)),
        _ => panic!("try again"),
    }
    match writer.on_written(Ok(())) {
        Verdict::Acknowledge(acks) => assert_eq!(acks, [1, 2]),
        _ => panic!("stored"),
    }
    assert!(writer.events().is_none());
}

#[test]
fn a_batch_without_spans_is_acknowledged_at_once() {
    let mut writer: Writer<u32> = Writer::new(retry(3), OnError::Stop);
    match writer.on_received(write_batch(&[], &[5])) {
        Reception::Acknowledge(acks) => assert_eq!(acks, [5]),
        Reception::Write => panic!("there is nothing to write"),
    }
}

#[test]
fn a_batch_that_is_given_up_stops_with_its_error() {
    let mut writer: Writer<u32> = Writer::new(retry(2), OnError::Stop);
    writer.on_received(write_batch(&["a"], &[1]));
    assert!(matches!(writer.on_written(failure()), Verdict::Retry(_)));
    let error = match writer.on_written(failure()) {
        Verdict::Stop(error) => error,
        _ => panic!("stop"),
    };
    let outcome = conclude(delivery(false), Err(error), Ok(()));
    let message = outcome.unwrap_err().message();
    assert!(message.contains("存储挂了"), "{message}");
}

#[test]
fn a_batch_that_is_dropped_is_not_acknowledged() {
    let mut writer: Writer<u32> = Writer::new(retry(1), OnError::Drop);
    writer.on_received(write_batch(&["a"], &[1]));
    assert!(matches!(writer.on_written(failure()), Verdict::Discard(_)));
    assert!(writer.events().is_none());
    writer.on_received(write_batch(&["b"], &[2]));
    match writer.on_written(Ok(())) {
        Verdict::Acknowledge(acks) => assert_eq!(acks, [2]),
        _ => panic!("stored"),
    }
}

#[test]
fn no_attempts_mean_one_attempt() {
    let mut writer: Writer<u32> = Writer::new(retry(0), OnError::Stop);
    writer.on_received(write_batch(&["a"], &[]));
    assert!(matches!(writer.on_written(failure()), Verdict::Stop(_)));
}

#[test]
fn which_error_is_reported() {
    let error = |text: &str| -> Result<(), Error> { Err(Error::other(text)) };
    assert_eq!(
        conclude(error("c"), error("w"), error("s")),
        Err(Error::other("w"))
    );
    assert_eq!(conclude(error("c"), Ok(()), error("s")), error("c"));
    assert_eq!(conclude(Ok(()), Ok(()), error("s")), error("s"));
    assert_eq!(conclude(Ok(()), Ok(()), Ok(())), Ok(()));
    assert_eq!(delivery(true), Ok(()));
    assert_eq!(delivery(false), error("写入任务已退出"));
    assert_eq!(flatten(Ok(error("x"))), error("x"));
    assert_eq!(
        flatten(Err("panicked".to_owned())),
        error("任务异常退出: panicked")
    );
}

#[test]
fn an_unhealthy_sink_is_refused_only_if_health_is_required() {
    assert_eq!(start_up(true, Ok(())), Ok(None));
    assert_eq!(start_up(true, failure()), Err(Error::other("存储挂了")));
    assert_eq!(
        start_up(false, failure()),
        Ok(Some(Error::other("存储挂了")))
    );
}

enum Change {
    OnlyErrors,
    Mark(&'static str),
    Count(i64),
}

impl Transform for Change {
    fn transform(&mut self, mut event: SpanEvent) -> Option<SpanEvent> {
        match self {
            Change::OnlyErrors => {
                if event.status_code == StatusCode::Error {
                    Some(event)
                } else {
                    None
                }
            }
            Change::Mark(text) => {
                event.insert("env", Value::String((*text).to_owned()));
                Some(event)
            }
            Change::Count(n) => {
                *n += 1;
                event.insert("n", Value::Number(serde_json::Number::from(*n)));
                Some(event)
            }
        }
    }
}

#[test]
fn transforms_run_in_their_order() {
    let mut transforms = vec![Change::OnlyErrors, Change::Mark("prod"), Change::Count(0)];
    let failed = SpanEvent {
        status_code: StatusCode::Error,
        ..Default::default()
    };
    let kept = apply_all(
        &mut transforms,
        vec![failed.clone(), SpanEvent::default(), failed.clone()],
    );
    assert_eq!(kept.len(), 2);
    assert_eq!(kept[0].get("env"), Some(&Value::String("prod".to_owned())));
    assert_eq!(
        kept[0].get("n"),
        Some(&Value::Number(serde_json::Number::from(1)))
    );
    // The transform that counts was left alone where the span was dropped before it.
    assert_eq!(
        kept[1].get("n"),
        Some(&Value::Number(serde_json::Number::from(2)))
    );
    assert!(apply(&mut transforms, SpanEvent::default()).is_none());
    let mut none: Vec<Change> = Vec::new();
    assert!(apply(&mut none, SpanEvent::default()).is_some());
}

#[test]
fn a_pipeline_needs_a_source_and_a_sink() {
    let builder: PipelineBuilder<u8, u8, Change> = Pipeline::<u8, u8, Change>::builder();
    match builder.build() {
        Err(error) => assert_eq!(error, Error::config("缺少 source")),
        Ok(_) => panic!("there is no source"),
    }
    match Pipeline::<u8, u8, Change>::builder().source(1).build() {
        Err(error) => assert_eq!(error, Error::config("缺少 sink")),
        Ok(_) => panic!("there is no sink"),
    }
    let usual = match Pipeline::<u8, u8, Change>::builder().source(1).sink(2).build() {
        Ok(pipeline) => pipeline,
        Err(error) => panic!("{error:?}"),
    };
    assert_eq!(usual.source, 1);
    assert_eq!(usual.sink, 2);
    assert_eq!(usual.buffer, 64);
    assert_eq!(usual.on_error, OnError::Stop);
    assert!(!usual.require_healthy);
    assert!(usual.transforms.is_empty());
    assert_eq!(usual.batch.max_events, 10_000);
    assert_eq!(usual.retry.max_attempts, 5);
}

#[test]
fn what_is_set_is_built() {
    let pipeline = match Pipeline::<u8, u8, Change>::builder()
        .source(1)
        .sink(2)
        .transform(Change::OnlyErrors)
        .transform(Change::Mark("x"))
        .batch(limits())
        .retry(retry(9))
        .buffer(0)
        .require_healthy(true)
        .on_error(OnError::Drop)
        .build()
    {
        Ok(pipeline) => pipeline,
        Err(error) => panic!("{error:?}"),
    };
    assert_eq!(pipeline.transforms.len(), 2);
    assert!(matches!(pipeline.transforms[1], Change::Mark("x")));
    assert_eq!(pipeline.batch.max_events, 3);
    assert_eq!(pipeline.retry.max_attempts, 9);
    assert_eq!(pipeline.buffer, 1);
    assert!(pipeline.require_healthy);
    assert_eq!(pipeline.on_error, OnError::Drop);
}

#[test]
fn no_spans_are_not_sent() {
    let nothing: Option<Batch<u32>> = parcel(Vec::new());
    assert!(nothing.is_none());
    let something: Option<Batch<u32>> = parcel(vec![named("a")]);
    let something = something.unwrap();
    assert_eq!(names(&something.events), ["a"]);
    assert!(something.ack.is_none());
    assert_eq!(sent(true), Ok(()));
    assert_eq!(sent(false), Err(Error::other("下游已关闭")));
}

#[test]
fn a_run_that_ends_well() {
    let mut run: Run<u32> = Run::new(limits());
    assert!(run.fits(&vec![named("a")]));
    assert!(matches!(
        run.on(Happening::Batch(acked(&["a"], 1))),
        Action::Wait(Timer::Start)
    ));
    match run.on(Happening::Batch(batch(&["b", "c"]))) {
        Action::Deliver(handed) => {
            assert_eq!(names(&handed.events), ["a", "b", "c"]);
            assert_eq!(handed.acks, [1]);
        }
        _ => panic!("there are enough"),
    }
    assert!(matches!(
        run.on(Happening::Delivered(true)),
        Action::Wait(Timer::Clear)
    ));
    assert!(matches!(
        run.on(Happening::TimeUp),
        Action::Wait(Timer::Clear)
    ));
    run.on(Happening::Batch(batch(&["d"])));
    match run.on(Happening::SourceClosed) {
        Action::Deliver(handed) => assert_eq!(names(&handed.events), ["d"]),
        _ => panic!("there is something left"),
    }
    assert!(matches!(
        run.on(Happening::Delivered(true)),
        Action::CloseWriter
    ));
    assert!(matches!(
        run.on(Happening::WriterEnded(Ok(()))),
        Action::ReleaseSource
    ));
    match run.on(Happening::SourceEnded(Ok(()))) {
        Action::Finish(result) => assert_eq!(result, Ok(())),
        _ => panic!("it is over"),
    }
}

#[test]
fn a_run_whose_writer_gives_up() {
    let mut run: Run<u32> = Run::new(limits());
    run.on(Happening::Batch(acked(&["a"], 1)));
    assert!(matches!(
        run.on(Happening::WriterEnded(failure())),
        Action::ReleaseSource
    ));
    match run.on(Happening::SourceEnded(Err(Error::other("later")))) {
        Action::Finish(result) => assert_eq!(result, failure()),
        _ => panic!("it is over"),
    }
}

#[test]
fn a_run_that_cannot_reach_its_writer() {
    let mut run: Run<u32> = Run::new(limits());
    assert!(matches!(
        run.on(Happening::Batch(batch(&["a", "b", "c"]))),
        Action::Deliver(_)
    ));
    assert!(matches!(
        run.on(Happening::Delivered(false)),
        Action::CloseWriter
    ));
    assert!(matches!(
        run.on(Happening::WriterEnded(Ok(()))),
        Action::ReleaseSource
    ));
    match run.on(Happening::SourceEnded(Ok(()))) {
        Action::Finish(result) => assert_eq!(result, Err(Error::other("写入任务已退出"))),
        _ => panic!("it is over"),
    }
}

#[test]
fn a_run_without_anything_to_do() {
    let mut run: Run<u32> = Run::new(limits());
    assert!(matches!(
        run.on(Happening::SourceClosed),
        Action::CloseWriter
    ));
    run.on(Happening::WriterEnded(Ok(())));
    match run.on(Happening::SourceEnded(Err(Error::source("port")))) {
        Action::Finish(result) => assert_eq!(result, Err(Error::source("port"))),
        _ => panic!("it is over"),
    }
}

#[test]
fn acknowledgements_go_out_in_order_without_those_that_were_lost() {
    let mut writer: Writer<u32> = Writer::new(retry(1), OnError::Drop);
    let mut sent = Vec::new();
    for (ack, stored) in [(1, true), (2, false), (3, true)] {
        writer.on_received(write_batch(&["x"], &[ack]));
        let outcome = if stored { Ok(()) } else { failure() };
        if let Verdict::Acknowledge(acks) = writer.on_written(outcome) {
            sent.extend(acks);
        }
    }
    assert_eq!(sent, [1, 3]);
}

#[test]
fn an_acknowledgement_means_that_the_spans_are_stored() {
    // Every third batch fails for good; the others are stored at the second attempt.
    let mut collector: Collector<u32> = Collector::new(BatchConfig::default().max_events(2));
    let mut writer: Writer<u32> = Writer::new(retry(2), OnError::Drop);
    let mut stored: Vec<String> = Vec::new();
    let mut acknowledged: Vec<u32> = Vec::new();
    for i in 0..12u32 {
        let name = format!("s{i}");
        let handed = match collector.on_batch(acked(&[&name], i)).hand_off {
            Some(handed) => handed,
            None => continue,
        };
        assert!(matches!(writer.on_received(handed), Reception::Write));
        assert!(matches!(writer.on_written(failure()), Verdict::Retry(_)));
        let events: Vec<String> = names(writer.events().unwrap())
            .iter()
            .map(|name| name.to_string())
            .collect();
        let outcome = if i % 3 == 0 { failure() } else { Ok(()) };
        match writer.on_written(outcome) {
            Verdict::Acknowledge(acks) => {
                stored.extend(events);
                acknowledged.extend(acks);
            }
            Verdict::Discard(_) => {}
            _ => panic!("the attempts are used up"),
        }
    }
    assert_eq!(acknowledged, [0, 1, 4, 5, 6, 7, 10, 11]);
    let expect: Vec<String> = acknowledged.iter().map(|i| format!("s{i}")).collect();
    assert_eq!(stored, expect);
}

#[test]
fn a_run_whose_source_fails_hands_on_everything_too() {
    let mut run: Run<u32> = Run::new(limits());
    run.on(Happening::Batch(acked(&["a", "b"], 1)));
    match run.on(Happening::SourceClosed) {
        Action::Deliver(handed) => {
            assert_eq!(names(&handed.events), ["a", "b"]);
            assert_eq!(handed.acks, [1]);
        }
        _ => panic!("there is something left"),
    }
    run.on(Happening::Delivered(true));
    run.on(Happening::WriterEnded(Ok(())));
    match run.on(Happening::SourceEnded(Err(Error::source("port")))) {
        Action::Finish(result) => assert_eq!(result, Err(Error::source("port"))),
        _ => panic!("it is over"),
    }
}

#[test]
fn what_comes_to_the_writer_is_stored_in_order() {
    let mut writer: Writer<u32> = Writer::new(retry(3), OnError::Stop);
    let mut stored: Vec<String> = Vec::new();
    let batches: [(&[&str], usize); 4] = [(&["a"], 0), (&["b", "c"], 2), (&[], 0), (&["d"], 1)];
    for (events, failures) in batches {
        match writer.on_received(write_batch(events, &[])) {
            Reception::Acknowledge(_) => continue,
            Reception::Write => {}
        }
        for _ in 0..failures {
            assert!(matches!(writer.on_written(failure()), Verdict::Retry(_)));
        }
        stored.extend(
            writer
                .events()
                .unwrap()
                .iter()
                .map(|event| event.span_name.clone()),
        );
        assert!(matches!(
            writer.on_written(Ok(())),
            Verdict::Acknowledge(_)
        ));
    }
    assert_eq!(stored, ["a", "b", "c", "d"]);
}
