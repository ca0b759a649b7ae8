//! Lines of standard input: what each of them gives, and when spans are sent.

use vstd::prelude::*;

use crate::laws::words::{is_blank, lemma_trim};
use crate::otlp::{json_request, spans_of};
use crate::source::stdin::{is_request, line_spans, read_through, reading, Incident, Reading};
use crate::value::Entries;

verus! {

/// A line gives the spans of the request that it holds. One of white space and one that holds no
/// request give none.
pub proof fn lemma_what_a_line_gives(line: Seq<char>, shared: Option<Entries>)
    ensures
        is_request(line) <==> !is_blank(line) && json_request(line) is Ok,
        is_request(line) ==> line_spans(line, shared) == spans_of(
            json_request(line)->Ok_0,
            shared,
        ),
        !is_request(line) ==> line_spans(line, shared).len() == 0,
{
    lemma_trim(line);
}

/// Every line is counted. One that holds no request changes nothing else. One that holds a request
/// adds its spans behind those that wait; all of them are sent exactly if that makes as many
/// requests as go into a batch, and counting begins anew.
pub proof fn lemma_what_a_line_leads_to(
    batch_lines: nat,
    shared: Option<Entries>,
    state: Reading,
    line: Seq<char>,
)
    ensures
        ({
            let (after, sent) = reading(batch_lines, shared, state, Incident::Line(line));
            let all = state.pending + line_spans(line, shared);
            &&& after.lines == state.lines + 1
            &&& !is_request(line) ==> after.pending == state.pending && after.requests
                == state.requests && sent.len() == 0
            &&& is_request(line) && state.requests + 1 < batch_lines ==> after.pending == all
                && after.requests == state.requests + 1 && sent.len() == 0
            &&& is_request(line) && state.requests + 1 >= batch_lines ==> sent == all
                && after.pending.len() == 0 && after.requests == 0
        }),
{
    lemma_what_a_line_gives(line, shared);
    assert(state.pending + line_spans(line, shared) =~= state.pending || is_request(line));
}

/// When the time is up and at the end, all that waits is sent, and nothing is counted as a line.
pub proof fn lemma_what_waits_is_sent(
    batch_lines: nat,
    shared: Option<Entries>,
    state: Reading,
    incident: Incident,
)
    requires
        incident is Tick || incident is End,
    ensures
        ({
            let (after, sent) = reading(batch_lines, shared, state, incident);
            &&& sent == state.pending
            &&& after.pending.len() == 0
            &&& after.lines == state.lines
            &&& incident is Tick && state.pending.len() > 0 ==> after.requests == 0
        }),
{
    let (after, sent) = reading(batch_lines, shared, state, incident);
    assert(sent =~= state.pending);
}

/// So many requests never wait that they would make a batch.
pub proof fn lemma_too_few_requests_wait(
    batch_lines: nat,
    shared: Option<Entries>,
    state: Reading,
    incidents: Seq<Incident>,
)
    requires
        batch_lines >= 1,
        state.requests < batch_lines,
    ensures
        read_through(batch_lines, shared, state, incidents).0.requests < batch_lines,
    decreases incidents.len(),
{
    if incidents.len() > 0 {
        lemma_too_few_requests_wait(batch_lines, shared, state, incidents.drop_last());
    }
}

/// How many of the incidents are lines.
pub open spec fn lines_among(incidents: Seq<Incident>) -> nat
    decreases incidents.len(),
{
    if incidents.len() == 0 {
        0
    } else if incidents.last() is Line {
        lines_among(incidents.drop_last()) + 1
    } else {
        lines_among(incidents.drop_last())
    }
}

/// All lines are counted, whatever they hold, so that a line that is passed over can be named.
pub proof fn lemma_lines_are_counted(
    batch_lines: nat,
    shared: Option<Entries>,
    state: Reading,
    incidents: Seq<Incident>,
)
    ensures
        read_through(batch_lines, shared, state, incidents).0.lines == state.lines + lines_among(
            incidents,
        ),
    decreases incidents.len(),
{
    if incidents.len() > 0 {
        lemma_lines_are_counted(batch_lines, shared, state, incidents.drop_last());
    }
}

} // verus!
