//! OTLP/JSON from standard input: one export request on each line, as the collector's file
//! exporter writes them.

use std::sync::Arc;
use std::time::Duration;

use vstd::prelude::*;

use crate::batch::{at_least_one, nanos, or_one};
use crate::error::{Error, Failure};
use crate::event::{shared_model, span_models, SpanEvent, SpanModel};
use crate::otlp::{
    convert, decode_json, json_error_text, json_request, shared_entries, spans_of,
};
use crate::source::{share_fields, shares};
use crate::text::{trim, trimmed};
use crate::value::{Entries, ValueMap};

verus! {

/// How standard input is read.
pub struct StdinSource {
    /// How many requests go into a batch.
    pub batch_lines: usize,
    /// How long spans wait at most for more lines.
    pub flush_interval: Duration,
    /// The fields that every span gets.
    pub fields: Option<Arc<ValueMap>>,
}

impl StdinSource {
    pub fn new() -> (r: StdinSource)
        ensures
            r.batch_lines == 500,
            nanos(r.flush_interval) == 500_000_000,
            r.fields is None,
    {
        StdinSource {
            batch_lines: 500,
            flush_interval: Duration::from_millis(500),
            fields: None,
        }
    }

    /// How many requests go into a batch; at least one.
    pub fn batch_lines(self, batch_lines: usize) -> (r: StdinSource)
        ensures
            r == (StdinSource { batch_lines: at_least_one(batch_lines), ..self }),
    {
        StdinSource { batch_lines: or_one(batch_lines), ..self }
    }

    /// The fields that every span gets.
    pub fn fields(self, fields: ValueMap) -> (r: StdinSource)
        ensures
            shares(r.fields, fields@),
            r == (StdinSource { fields: r.fields, ..self }),
    {
        StdinSource { fields: share_fields(fields), ..self }
    }
}

impl Default for StdinSource {
    fn default() -> (r: StdinSource)
        ensures
            r.batch_lines == 500,
            nanos(r.flush_interval) == 500_000_000,
            r.fields is None,
    {
        StdinSource::new()
    }
}

/// The spans of a line. A line of nothing but white space has none, and neither has one that is
/// no export request.
pub open spec fn line_spans(line: Seq<char>, shared: Option<Entries>) -> Seq<SpanModel> {
    if trim(line).len() == 0 {
        Seq::empty()
    } else {
        match json_request(line) {
            Ok(request) => spans_of(request, shared),
            Err(_) => Seq::empty(),
        }
    }
}

/// The line holds an export request.
pub open spec fn is_request(line: Seq<char>) -> bool {
    trim(line).len() > 0 && json_request(line) is Ok
}

/// Where reading stands.
pub ghost struct Reading {
    /// The spans that were read and not sent yet.
    pub pending: Seq<SpanModel>,
    /// How many requests they come from.
    pub requests: nat,
    /// How many lines were read.
    pub lines: nat,
}

/// What happens while lines are read.
pub ghost enum Incident {
    /// A line was read.
    Line(Seq<char>),
    /// The time to wait is over.
    Tick,
    /// There are no more lines, or it is time to stop.
    End,
}

/// What an incident leads to: where reading stands then, and the spans that are sent.
pub open spec fn reading(
    batch_lines: nat,
    shared: Option<Entries>,
    state: Reading,
    incident: Incident,
) -> (Reading, Seq<SpanModel>) {
    match incident {
        Incident::Line(line) => {
            let pending = state.pending + line_spans(line, shared);
            let requests = if is_request(line) {
                state.requests + 1
            } else {
                state.requests
            };
            let lines = state.lines + 1;
            if is_request(line) && requests >= batch_lines {
                (Reading { pending: Seq::empty(), requests: 0, lines }, pending)
            } else {
                (Reading { pending, requests, lines }, Seq::empty())
            }
        },
        Incident::Tick => if state.pending.len() > 0 {
            (Reading { pending: Seq::empty(), requests: 0, ..state }, state.pending)
        } else {
            (state, Seq::empty())
        },
        Incident::End => (Reading { pending: Seq::empty(), ..state }, state.pending),
    }
}

/// A line that was passed over.
pub struct Skipped {
    /// The number of the line, from one.
    pub line: usize,
    /// Why it could not be read.
    pub error: Error,
}

/// What a line leads to.
pub struct LineStep {
    /// Spans to send; there may be none.
    pub send: Vec<SpanEvent>,
    pub skipped: Option<Skipped>,
}

/// Gathers the spans of lines.
pub struct LineReader {
    batch_lines: usize,
    fields: Option<Arc<ValueMap>>,
    pending: Vec<SpanEvent>,
    requests: usize,
    lines: usize,
}

impl LineReader {
    pub closed spec fn view(&self) -> Reading {
        Reading {
            pending: span_models(self.pending@),
            requests: self.requests as nat,
            lines: self.lines as nat,
        }
    }

    pub closed spec fn batch_lines(&self) -> nat {
        self.batch_lines as nat
    }

    pub closed spec fn shared(&self) -> Option<Entries> {
        shared_model(self.fields)
    }

    /// The requests that were gathered are too few for a batch.
    pub closed spec fn wf(&self) -> bool {
        self.requests < self.batch_lines
    }

    pub fn new(source: StdinSource) -> (r: LineReader)
        requires
            source.batch_lines >= 1,
        ensures
            r.wf(),
            r.batch_lines() == source.batch_lines,
            r.shared() == shared_model(source.fields),
            r@ == (Reading { pending: Seq::empty(), requests: 0, lines: 0 }),
    {
        let r = LineReader {
            batch_lines: source.batch_lines,
            fields: source.fields,
            pending: Vec::new(),
            requests: 0,
            lines: 0,
        };
        assert(r@.pending =~= Seq::empty());
        r
    }

    fn take(&mut self) -> (r: Vec<SpanEvent>)
        ensures
            r == old(self).pending,
            final(self).pending@.len() == 0,
            final(self).batch_lines == old(self).batch_lines,
            final(self).fields == old(self).fields,
            final(self).requests == old(self).requests,
            final(self).lines == old(self).lines,
    {
        let mut pending: Vec<SpanEvent> = Vec::new();
        std::mem::swap(&mut self.pending, &mut pending);
        pending
    }

    /// A line was read. One that is no export request is passed over.
    pub fn on_line(&mut self, line: &str) -> (r: LineStep)
        requires
            old(self).wf(),
            old(self)@.lines < usize::MAX,
        ensures
            final(self).wf(),
            final(self).batch_lines() == old(self).batch_lines(),
            final(self).shared() == old(self).shared(),
            ({
                let (state, send) = reading(
                    old(self).batch_lines(),
                    old(self).shared(),
                    old(self)@,
                    Incident::Line(line@),
                );
                final(self)@ == state && span_models(r.send@) == send
            }),
            r.skipped is Some <==> trim(line@).len() > 0 && json_request(line@) is Err,
            r.skipped is Some ==> r.skipped->Some_0.line == old(self)@.lines + 1
                && r.skipped->Some_0.error@ == Failure::Json(
                json_error_text(json_request(line@)->Err_0),
            ),
    {
        self.lines += 1;
        let mut send: Vec<SpanEvent> = Vec::new();
        let mut skipped: Option<Skipped> = None;
        assert(span_models(send@) =~= Seq::empty());
        let text = trimmed(line);
        if text.as_str().is_empty() {
            assert(span_models(self.pending@) + line_spans(line@, self.shared()) =~= span_models(
                self.pending@,
            ));
            return LineStep { send, skipped };
        }
        match decode_json(line) {
            Ok(request) => {
                let shared = self.fields.as_ref();
                let mut more = convert(request, shared);
                assert(shared_entries(shared) == shared_model(self.fields));
                let ghost earlier = self.pending@;
                let ghost added = more@;
                self.pending.append(&mut more);
                assert(span_models(self.pending@) =~= span_models(earlier) + span_models(added));
                self.requests += 1;
                if self.requests >= self.batch_lines {
                    send = self.take();
                    self.requests = 0;
                    assert(span_models(self.pending@) =~= Seq::empty());
                }
            },
            Err(error) => {
                skipped = Some(Skipped { line: self.lines, error });
                assert(span_models(self.pending@) + line_spans(line@, self.shared())
                    =~= span_models(self.pending@));
            },
        }
        LineStep { send, skipped }
    }

    /// The time to wait is over. What was gathered is sent, so that the last lines of a slow input
    /// do not wait for ever.
    pub fn on_tick(&mut self) -> (r: Vec<SpanEvent>)
        requires
            old(self).wf(),
        ensures
            final(self).wf(),
            final(self).batch_lines() == old(self).batch_lines(),
            final(self).shared() == old(self).shared(),
            ({
                let (state, send) = reading(
                    old(self).batch_lines(),
                    old(self).shared(),
                    old(self)@,
                    Incident::Tick,
                );
                final(self)@ == state && span_models(r@) == send
            }),
    {
        if self.pending.len() > 0 {
            self.requests = 0;
            let send = self.take();
            assert(span_models(self.pending@) =~= Seq::empty());
            send
        } else {
            let send: Vec<SpanEvent> = Vec::new();
            assert(span_models(send@) =~= Seq::empty());
            send
        }
    }

    /// There are no more lines, or it is time to stop. What was gathered is sent.
    pub fn on_end(&mut self) -> (r: Vec<SpanEvent>)
        requires
            old(self).wf(),
        ensures
            final(self).wf(),
            final(self).batch_lines() == old(self).batch_lines(),
            final(self).shared() == old(self).shared(),
            ({
                let (state, send) = reading(
                    old(self).batch_lines(),
                    old(self).shared(),
                    old(self)@,
                    Incident::End,
                );
                final(self)@ == state && span_models(r@) == send
            }),
    {
        let send = self.take();
        assert(span_models(self.pending@) =~= Seq::empty());
        send
    }
}

/// The spans of the lines among several incidents, in their order.
pub open spec fn spans_read(incidents: Seq<Incident>, shared: Option<Entries>) -> Seq<SpanModel>
    decreases incidents.len(),
{
    if incidents.len() == 0 {
        Seq::empty()
    } else {
        match incidents.last() {
            Incident::Line(line) => spans_read(incidents.drop_last(), shared) + line_spans(
                line,
                shared,
            ),
            _ => spans_read(incidents.drop_last(), shared),
        }
    }
}

/// Where reading stands after several incidents, and all spans that were sent.
pub open spec fn read_through(
    batch_lines: nat,
    shared: Option<Entries>,
    state: Reading,
    incidents: Seq<Incident>,
) -> (Reading, Seq<SpanModel>)
    decreases incidents.len(),
{
    if incidents.len() == 0 {
        (state, Seq::empty())
    } else {
        let (before, sent) = read_through(batch_lines, shared, state, incidents.drop_last());
        let (after, more) = reading(batch_lines, shared, before, incidents.last());
        (after, sent + more)
    }
}

/// Every span of every line that can be read is sent once and in the order of the lines: what
/// was sent, followed by what waits to be sent, is what was read. After the end nothing waits.
pub proof fn lemma_every_line_is_sent(
    batch_lines: nat,
    shared: Option<Entries>,
    state: Reading,
    incidents: Seq<Incident>,
)
    ensures
        ({
            let (after, sent) = read_through(batch_lines, shared, state, incidents);
            &&& sent + after.pending == state.pending + spans_read(incidents, shared)
            &&& incidents.len() > 0 && incidents.last() is End ==> sent == state.pending
                + spans_read(incidents, shared)
        }),
    decreases incidents.len(),
{
    let (after, sent) = read_through(batch_lines, shared, state, incidents);
    let read = spans_read(incidents, shared);
    if incidents.len() > 0 {
        let front = incidents.drop_last();
        let (before, earlier) = read_through(batch_lines, shared, state, front);
        let came = spans_read(front, shared);
        lemma_every_line_is_sent(batch_lines, shared, state, front);
        match incidents.last() {
            Incident::Line(line) => {
                let spans = line_spans(line, shared);
                assert(state.pending + (came + spans) =~= (state.pending + came) + spans);
                assert(sent + after.pending =~= (earlier + before.pending) + spans);
            },
            _ => {
                assert(sent + after.pending =~= earlier + before.pending);
            },
        }
        if incidents.last() is End {
            assert(sent + after.pending =~= sent);
        }
    } else {
        assert(sent + after.pending =~= state.pending + read);
    }
}

} // verus!
