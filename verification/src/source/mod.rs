//! Where spans come from.

pub mod otlp;
pub mod stdin;

pub use otlp::OtlpSource;
pub use stdin::StdinSource;

use std::sync::Arc;

use vstd::prelude::*;

use crate::error::{Error, Failure};
use crate::event::SpanEvent;
use crate::value::{Entries, ValueMap};

verus! {

/// Spans that came in together, with a handle to acknowledge them by. They are acknowledged only
/// once they have been stored.
pub struct Batch<A> {
    pub events: Vec<SpanEvent>,
    pub ack: Option<A>,
}

impl<A> Batch<A> {
    /// Spans that nobody waits for.
    pub fn new(events: Vec<SpanEvent>) -> (r: Batch<A>)
        ensures
            r.events == events,
            r.ack is None,
    {
        Batch { events, ack: None }
    }

    /// Spans whose sender waits until they have been stored.
    pub fn with_ack(events: Vec<SpanEvent>, ack: A) -> (r: Batch<A>)
        ensures
            r.events == events,
            r.ack == Some(ack),
    {
        Batch { events, ack: Some(ack) }
    }
}

/// What a source sends for spans that nobody waits for: nothing at all where there are none.
pub fn parcel<A>(events: Vec<SpanEvent>) -> (r: Option<Batch<A>>)
    ensures
        if events@.len() == 0 {
            r is None
        } else {
            r is Some && r->Some_0.events == events && r->Some_0.ack is None
        },
{
    if events.len() == 0 {
        None
    } else {
        Some(Batch::new(events))
    }
}

/// What sending a batch leads to. It fails where nobody takes batches any more.
pub fn sent(delivered: bool) -> (r: Result<(), Error>)
    ensures
        r is Ok <==> delivered,
        r is Err ==> r->Err_0@ == Failure::Other("下游已关闭"@),
{
    if delivered {
        Ok(())
    } else {
        Err(Error::other("下游已关闭"))
    }
}

/// `shared` holds `fields`, unless there are none: then there is nothing to share.
pub open spec fn shares(shared: Option<Arc<ValueMap>>, fields: Entries) -> bool {
    match shared {
        Some(map) => fields.len() > 0 && (*map)@ == fields,
        None => fields.len() == 0,
    }
}

/// The fields for all spans to share.
pub(crate) fn share_fields(fields: ValueMap) -> (r: Option<Arc<ValueMap>>)
    ensures
        shares(r, fields@),
{
    if fields.is_empty() {
        None
    } else {
        Some(Arc::new(fields))
    }
}

} // verus!
