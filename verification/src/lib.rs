//! Collects OTLP traces and stores them, one flat row for each span.
//!
//! ```text
//!   SDK or agent ──OTLP──▶ source ──batches──▶ pipeline ──larger batches──▶ sink
//! ```
//!
//! * A source receives spans ([`source`]) and takes them out of export requests ([`otlp`]).
//! * The pipeline ([`pipeline`]) collects them, tries again what fails and acknowledges what is
//!   stored.
//! * A sink ([`sink`]) writes them, as rows of a table or as lines.
//! * What holds of all this, whatever comes in, is stated in [`laws`].
//!
//! Nothing in this crate reads, writes or waits. It takes what has happened and says what is to
//! be done; the program around it does that.

pub mod batch;
pub mod cli;
pub mod clock;
pub mod compression;
pub mod config;
pub mod error;
pub mod event;
pub mod json;
pub mod laws;
pub mod otlp;
pub mod pipeline;
pub mod reading;
pub mod sink;
pub mod source;
pub mod text;
pub mod value;

pub use error::Error;
pub use event::{SpanEvent, SpanKind, SpanLink, StatusCode, TimedEvent};
pub use pipeline::{Pipeline, PipelineBuilder};
pub use source::Batch;
