//! Spans on the standard output, to look at.

use vstd::prelude::*;

use crate::clock::utc;
use crate::event::{row_text, span_models, text_line, SpanEvent, SpanModel, WithZone};
use crate::json::is_json_line;

verus! {

/// How a span is shown.
#[derive(Clone, Copy, Debug, PartialEq, Eq, Structural)]
pub enum Encoding {
    /// As the row that would be stored, with its times in UTC.
    Json,
    /// In short: time, service, name, kind, duration, status and identifiers.
    Text,
}

/// Where spans are shown.
#[derive(Clone, Copy, Debug, PartialEq, Eq, Structural)]
pub enum Target {
    Stdout,
    Stderr,
}

/// Shows spans, one on each line.
#[derive(Clone, Copy, Debug, PartialEq, Eq, Structural)]
pub struct ConsoleSink {
    pub encoding: Encoding,
    pub target: Target,
}

/// The line of a span. `millis` is its duration in milliseconds.
pub open spec fn line_of(encoding: Encoding, span: SpanModel, millis: Seq<char>) -> Seq<char> {
    match encoding {
        Encoding::Json => row_text(span, "UTC"@),
        Encoding::Text => text_line(span, millis),
    }
}

/// The lines of spans, each with a line feed at its end.
pub open spec fn lines_of(
    encoding: Encoding,
    spans: Seq<SpanModel>,
    millis: Seq<String>,
) -> Seq<char>
    decreases spans.len(),
{
    if spans.len() == 0 {
        Seq::empty()
    } else {
        lines_of(encoding, spans.drop_last(), millis) + line_of(
            encoding,
            spans.last(),
            millis[spans.len() - 1]@,
        ) + "\n"@
    }
}

impl ConsoleSink {
    /// Shows spans on the standard output.
    pub fn new(encoding: Encoding) -> (r: ConsoleSink)
        ensures
            r == (ConsoleSink { encoding, target: Target::Stdout }),
    {
        ConsoleSink { encoding, target: Target::Stdout }
    }

    /// Shows spans on the standard error output instead.
    pub fn stderr(self) -> (r: ConsoleSink)
        ensures
            r == (ConsoleSink { target: Target::Stderr, ..self }),
    {
        ConsoleSink { target: Target::Stderr, ..self }
    }

    /// What to write for spans. `millis` are their durations in milliseconds, to three places. A
    /// row in JSON never takes up more than its line.
    pub fn render(&self, events: &[SpanEvent], millis: &Vec<String>) -> (r: String)
        requires
            millis@.len() == events@.len(),
        ensures
            r@ == lines_of(self.encoding, span_models(events@), millis@),
            self.encoding is Json ==> forall|i: int|
                0 <= i < events@.len() ==> is_json_line(
                    line_of(Encoding::Json, #[trigger] span_models(events@)[i], millis@[i]@),
                ),
    {
        let ghost spans = span_models(events@);
        let mut out = String::new();
        let mut i: usize = 0;
        while i < events.len()
            invariant
                spans == span_models(events@),
                millis@.len() == events@.len(),
                i <= events@.len(),
                out@ == lines_of(self.encoding, spans.take(i as int), millis@),
                self.encoding is Json ==> forall|k: int|
                    0 <= k < i ==> is_json_line(
                        line_of(Encoding::Json, #[trigger] spans[k], millis@[k]@),
                    ),
            decreases events@.len() - i,
        {
            let event = &events[i];
            let line = match self.encoding {
                Encoding::Json => {
                    let row = WithZone { event, tz: utc() };
                    row.to_json_line()
                },
                Encoding::Text => event.to_text_line(millis[i].as_str()),
            };
            assert(spans[i as int] == event@);
            out.push_str(line.as_str());
            out.push_str("\n");
            proof {
                let more = spans.take(i + 1);
                assert(more.drop_last() =~= spans.take(i as int));
                assert(more.last() == event@);
                assert(out@ == lines_of(self.encoding, more, millis@));
            }
            i += 1;
        }
        assert(spans.take(i as int) =~= spans);
        out
    }
}

impl Default for ConsoleSink {
    fn default() -> (r: ConsoleSink)
        ensures
            r == (ConsoleSink { encoding: Encoding::Json, target: Target::Stdout }),
    {
        ConsoleSink::new(Encoding::Json)
    }
}

} // verus!
