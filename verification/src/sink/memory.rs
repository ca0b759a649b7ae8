//! Spans kept in memory, for tests and examples.

use vstd::prelude::*;

use crate::event::{span_models, SpanEvent, SpanModel};

verus! {

/// Keeps the spans that it is given.
pub struct MemorySink {
    events: Vec<SpanEvent>,
}

impl MemorySink {
    pub closed spec fn view(&self) -> Seq<SpanModel> {
        span_models(self.events@)
    }

    pub fn new() -> (r: MemorySink)
        ensures
            r@ == Seq::<SpanModel>::empty(),
    {
        let r = MemorySink { events: Vec::new() };
        assert(r@ =~= Seq::empty());
        r
    }

    /// The spans, in the order in which they were given.
    pub fn events(&self) -> (r: &Vec<SpanEvent>)
        ensures
            span_models(r@) == self@,
    {
        &self.events
    }

    pub fn len(&self) -> (r: usize)
        ensures
            r == self@.len(),
    {
        self.events.len()
    }

    pub fn is_empty(&self) -> (r: bool)
        ensures
            r == (self@.len() == 0),
    {
        self.events.len() == 0
    }

    /// Takes more spans.
    pub fn write(&mut self, events: &[SpanEvent])
        ensures
            final(self)@ == old(self)@ + span_models(events@),
    {
        let mut i: usize = 0;
        assert(span_models(events@).take(0) =~= Seq::empty());
        assert(self@ + span_models(events@).take(0) =~= self@);
        while i < events.len()
            invariant
                i <= events@.len(),
                self@ == old(self)@ + span_models(events@).take(i as int),
            decreases events@.len() - i,
        {
            let ghost earlier = self@;
            let event = events[i].clone();
            self.events.push(event);
            assert(self@ =~= earlier.push(event@));
            assert(self@ =~= old(self)@ + span_models(events@).take(i + 1));
            i += 1;
        }
        assert(span_models(events@).take(i as int) =~= span_models(events@));
    }
}

impl Default for MemorySink {
    fn default() -> (r: MemorySink)
        ensures
            r@ == Seq::<SpanModel>::empty(),
    {
        MemorySink::new()
    }
}

} // verus!
