//! OTLP over the network: gRPC and HTTP, at the addresses that SDKs send to by themselves.
//!
//! Both ways in hand what they receive to [`crate::otlp::convert`]. A full queue is not waited
//! for without end: after a while the sender is told to come back later, which is what OTLP
//! prescribes, and what senders know how to do.

use std::io::Error as IoError;
use std::sync::Arc;
use std::time::Duration;

use opentelemetry_proto::tonic::collector::trace::v1::{
    ExportTraceServiceRequest, ExportTraceServiceResponse,
};
use prost::{DecodeError, Message};
use serde_json::Error as JsonError;
use vstd::prelude::*;

use crate::batch::nanos;
use crate::compression::{gunzip, gunzipped, reads_back};
use crate::error::{
    describe_io_error, io_context, io_error_kind, kind_of, Error, Failure, IoKind,
};
use crate::event::{shared_model, span_models, SpanEvent};
use crate::otlp::{convert, describe_json_error, json_error_text, shared_entries, spans_of};
use crate::source::{share_fields, shares};
use crate::text::{
    chars_of, decimal, lower, lowered, position_of, push_decimal, same, trim, trimmed,
    trimmed_range, until,
};
use crate::value::ValueMap;

verus! {

pub const DEFAULT_GRPC_ADDR: &'static str = "0.0.0.0:4317";

pub const DEFAULT_HTTP_ADDR: &'static str = "0.0.0.0:4318";

/// How many bytes a request may have, unpacked.
pub const DEFAULT_MAX_REQUEST_BYTES: usize = 16 * 1024 * 1024;

/// The least limit for the size of a request.
pub const LEAST_MAX_REQUEST_BYTES: usize = 1024;

/// How long a request waits for room in the queue.
pub fn default_enqueue_timeout() -> (r: Duration)
    ensures
        nanos(r) == 5_000_000_000,
{
    Duration::from_secs(5)
}

// ---------------------------------------------------------------------------------------------
// Settings
// ---------------------------------------------------------------------------------------------

/// Where to listen: at an address, or with a listener `L` that is bound already.
pub enum Endpoint<L> {
    Addr(String),
    Bound(L),
}

/// How spans are received.
pub struct OtlpSource<L> {
    pub grpc: Option<Endpoint<L>>,
    pub http: Option<Endpoint<L>>,
    pub max_request_bytes: usize,
    pub enqueue_timeout: Duration,
    pub wait_for_write: bool,
    pub fields: Option<Arc<ValueMap>>,
}

/// Listening at an address.
pub open spec fn listens_at<L>(endpoint: Option<Endpoint<L>>, addr: Seq<char>) -> bool {
    match endpoint {
        Some(Endpoint::Addr(text)) => text@ == addr,
        _ => false,
    }
}

impl<L> OtlpSource<L> {
    /// Both ways in are open, at the usual addresses.
    pub fn new() -> (r: OtlpSource<L>)
        ensures
            listens_at(r.grpc, DEFAULT_GRPC_ADDR@),
            listens_at(r.http, DEFAULT_HTTP_ADDR@),
            r.max_request_bytes == DEFAULT_MAX_REQUEST_BYTES,
            nanos(r.enqueue_timeout) == 5_000_000_000,
            !r.wait_for_write,
            r.fields is None,
    {
        OtlpSource {
            grpc: Some(Endpoint::Addr(DEFAULT_GRPC_ADDR.to_owned())),
            http: Some(Endpoint::Addr(DEFAULT_HTTP_ADDR.to_owned())),
            max_request_bytes: DEFAULT_MAX_REQUEST_BYTES,
            enqueue_timeout: default_enqueue_timeout(),
            wait_for_write: false,
            fields: None,
        }
    }

    pub fn grpc(self, addr: String) -> (r: OtlpSource<L>)
        ensures
            r == (OtlpSource { grpc: Some(Endpoint::Addr(addr)), ..self }),
    {
        OtlpSource { grpc: Some(Endpoint::Addr(addr)), ..self }
    }

    /// Receives gRPC with a listener that is bound already.
    pub fn grpc_listener(self, listener: L) -> (r: OtlpSource<L>)
        ensures
            r == (OtlpSource { grpc: Some(Endpoint::Bound(listener)), ..self }),
    {
        OtlpSource { grpc: Some(Endpoint::Bound(listener)), ..self }
    }

    pub fn no_grpc(self) -> (r: OtlpSource<L>)
        ensures
            r == (OtlpSource { grpc: None, ..self }),
    {
        OtlpSource { grpc: None, ..self }
    }

    pub fn http(self, addr: String) -> (r: OtlpSource<L>)
        ensures
            r == (OtlpSource { http: Some(Endpoint::Addr(addr)), ..self }),
    {
        OtlpSource { http: Some(Endpoint::Addr(addr)), ..self }
    }

    /// Receives HTTP with a listener that is bound already.
    pub fn http_listener(self, listener: L) -> (r: OtlpSource<L>)
        ensures
            r == (OtlpSource { http: Some(Endpoint::Bound(listener)), ..self }),
    {
        OtlpSource { http: Some(Endpoint::Bound(listener)), ..self }
    }

    pub fn no_http(self) -> (r: OtlpSource<L>)
        ensures
            r == (OtlpSource { http: None, ..self }),
    {
        OtlpSource { http: None, ..self }
    }

    /// How many bytes a request may have, unpacked; at least 1024.
    pub fn max_request_bytes(self, limit: usize) -> (r: OtlpSource<L>)
        ensures
            r == (OtlpSource {
                max_request_bytes: if limit < LEAST_MAX_REQUEST_BYTES {
                    LEAST_MAX_REQUEST_BYTES
                } else {
                    limit
                },
                ..self
            }),
    {
        let limit: usize = if limit < LEAST_MAX_REQUEST_BYTES {
            LEAST_MAX_REQUEST_BYTES
        } else {
            limit
        };
        OtlpSource { max_request_bytes: limit, ..self }
    }

    /// How long a request waits for room in the queue before its sender is told to come back.
    pub fn enqueue_timeout(self, timeout: Duration) -> (r: OtlpSource<L>)
        ensures
            r == (OtlpSource { enqueue_timeout: timeout, ..self }),
    {
        OtlpSource { enqueue_timeout: timeout, ..self }
    }

    /// Whether a sender is told of success only once its spans have been stored.
    pub fn wait_for_write(self, enabled: bool) -> (r: OtlpSource<L>)
        ensures
            r == (OtlpSource { wait_for_write: enabled, ..self }),
    {
        OtlpSource { wait_for_write: enabled, ..self }
    }

    /// The fields that every span gets.
    pub fn fields(self, fields: ValueMap) -> (r: OtlpSource<L>)
        ensures
            shares(r.fields, fields@),
            r == (OtlpSource { fields: r.fields, ..self }),
    {
        OtlpSource { fields: share_fields(fields), ..self }
    }

    /// Something has to be open.
    pub fn check(&self) -> (r: Result<(), Error>)
        ensures
            r is Ok <==> self.grpc is Some || self.http is Some,
            r is Err ==> r->Err_0@ == Failure::Config(
                "OTLP source 的 grpc 和 http 至少要开一个"@,
            ),
    {
        if self.grpc.is_none() && self.http.is_none() {
            Err(Error::config("OTLP source 的 grpc 和 http 至少要开一个"))
        } else {
            Ok(())
        }
    }
}

impl<L> Default for OtlpSource<L> {
    fn default() -> (r: OtlpSource<L>)
        ensures
            listens_at(r.grpc, DEFAULT_GRPC_ADDR@),
            listens_at(r.http, DEFAULT_HTTP_ADDR@),
            r.max_request_bytes == DEFAULT_MAX_REQUEST_BYTES,
            nanos(r.enqueue_timeout) == 5_000_000_000,
            !r.wait_for_write,
            r.fields is None,
    {
        OtlpSource::new()
    }
}

// ---------------------------------------------------------------------------------------------
// Listening
// ---------------------------------------------------------------------------------------------

/// What is said about an address that could not be listened at, by the kind of the error and its
/// text. `what` is the way in.
pub open spec fn listen_trouble(
    what: Seq<char>,
    addr: Seq<char>,
    kind: IoKind,
    cause: Seq<char>,
) -> Failure {
    Failure::IoContext(io_context("监听 "@ + what + " "@ + addr + " 失败"@, kind), cause)
}

/// An address could not be listened at because of an error of the given kind and text. `what` is
/// the way in.
pub fn listen_error(what: &str, addr: &str, kind: IoKind, cause: &str) -> (r: Error)
    ensures
        r@ == listen_trouble(what@, addr@, kind, cause@),
{
    let mut context = "监听 ".to_owned();
    context.push_str(what);
    context.push_str(" ");
    context.push_str(addr);
    context.push_str(" 失败");
    Error::io_context(context.as_str(), kind, cause)
}

/// An address could not be listened at. `what` is the way in. The cause is the text that the error
/// is displayed with, whatever that is.
pub fn listen_failed(what: &str, addr: &str, error: IoError) -> (r: Error)
    ensures
        exists|cause: Seq<char>|
            r@ == #[trigger] listen_trouble(what@, addr@, io_error_kind(error), cause),
{
    let cause = describe_io_error(&error);
    listen_error(what, addr, kind_of(&error), cause.as_str())
}

/// The service behind a way in has ended. `what` is the way in.
pub fn service_ended(what: &str, cause: &str) -> (r: Error)
    ensures
        r@ == Failure::Source(what@ + " 服务退出: "@ + cause@),
{
    let mut text = what.to_owned();
    text.push_str(" 服务退出: ");
    text.push_str(cause);
    Error::Source(text)
}

/// What a way in came to. One whose task broke down is an error with what is known about it.
pub open spec fn listener_result(finished: Result<Result<(), Error>, String>) -> Result<
    (),
    Failure,
> {
    match finished {
        Ok(Ok(_)) => Ok(()),
        Ok(Err(error)) => Err(error@),
        Err(cause) => Err(Failure::Other("监听任务异常退出: "@ + cause@)),
    }
}

/// What the ways in come to so far: the first error there was.
pub fn merge_listener(
    sofar: Result<(), Error>,
    finished: Result<Result<(), Error>, String>,
) -> (r: Result<(), Error>)
    ensures
        match sofar {
            Err(error) => r == Err::<(), Error>(error),
            Ok(_) => match listener_result(finished) {
                Ok(_) => r is Ok,
                Err(failure) => r is Err && r->Err_0@ == failure,
            },
        },
{
    match sofar {
        Err(error) => Err(error),
        Ok(_) => match finished {
            Ok(outcome) => outcome,
            Err(cause) => {
                let mut text = "监听任务异常退出: ".to_owned();
                text.push_str(cause.as_str());
                Err(Error::Other(text))
            },
        },
    }
}

// ---------------------------------------------------------------------------------------------
// Accepting
// ---------------------------------------------------------------------------------------------

/// Why a request was not accepted. In every case its sender is to come back later.
#[derive(Clone, Copy, Debug, PartialEq, Eq, Structural)]
pub enum Reject {
    /// There was no room in the queue.
    Busy,
    /// Nobody takes spans any more.
    Closed,
    /// The spans could not be stored, and the sender was to wait for that.
    WriteFailed,
}

impl Reject {
    /// What the sender is told.
    pub open spec fn text(self) -> Seq<char> {
        match self {
            Reject::Busy => "下游队列已满，稍后重试"@,
            Reject::Closed => "正在退出，稍后重试"@,
            Reject::WriteFailed => "写入存储失败，稍后重试"@,
        }
    }

    pub fn message(self) -> (r: &'static str)
        ensures
            r@ == self.text(),
    {
        match self {
            Reject::Busy => "下游队列已满，稍后重试",
            Reject::Closed => "正在退出，稍后重试",
            Reject::WriteFailed => "写入存储失败，稍后重试",
        }
    }
}

/// What came of putting spans into the queue.
#[derive(Clone, Copy, Debug, PartialEq, Eq, Structural)]
pub enum Queueing {
    Queued,
    /// There was no room for too long.
    TimedOut,
    /// Nobody takes spans any more.
    Closed,
}

/// What to do with the spans of a request.
pub enum Acceptance {
    /// There are none: the request is accepted.
    Nothing,
    /// Put them into the queue.
    Enqueue(Vec<SpanEvent>),
}

/// What to do once the spans were to go into the queue.
#[derive(Clone, Copy, Debug, PartialEq, Eq)]
pub enum Progress {
    /// This is the answer.
    Answer(Result<usize, Reject>),
    /// Wait until the spans are stored, or are not.
    AwaitWrite,
}

/// What a request with `count` spans is answered: how many were accepted, or why none were.
/// `stored` says whether they were stored.
pub open spec fn answer(
    count: usize,
    wait_for_write: bool,
    queueing: Queueing,
    stored: bool,
) -> Result<usize, Reject> {
    if count == 0 {
        Ok(0)
    } else {
        match queueing {
            Queueing::TimedOut => Err(Reject::Busy),
            Queueing::Closed => Err(Reject::Closed),
            Queueing::Queued => if wait_for_write && !stored {
                Err(Reject::WriteFailed)
            } else {
                Ok(count)
            },
        }
    }
}

/// Where the answer waits for the spans to be stored, a sender is told of success only if they
/// were. Where it does not, a sender is told of success exactly if they went into the queue.
pub proof fn lemma_answer(count: usize, queueing: Queueing, stored: bool)
    requires
        count > 0,
    ensures
        answer(count, true, queueing, stored) is Ok <==> queueing is Queued && stored,
        answer(count, false, queueing, stored) is Ok <==> queueing is Queued,
{
}

/// The spans of a request, with the fields that they share.
pub fn accept(request: ExportTraceServiceRequest, fields: &Option<Arc<ValueMap>>) -> (r:
    Acceptance)
    ensures
        ({
            let spans = spans_of(request, shared_model(*fields));
            match r {
                Acceptance::Nothing => spans.len() == 0,
                Acceptance::Enqueue(events) => spans.len() > 0 && span_models(events@) == spans,
            }
        }),
{
    let shared = fields.as_ref();
    let events = convert(request, shared);
    assert(shared_entries(shared) == shared_model(*fields));
    assert(span_models(events@).len() == events@.len());
    if events.len() == 0 {
        Acceptance::Nothing
    } else {
        Acceptance::Enqueue(events)
    }
}

/// The spans of a request were to go into the queue.
pub fn on_enqueued(count: usize, wait_for_write: bool, queueing: Queueing) -> (r: Progress)
    requires
        count > 0,
    ensures
        match r {
            Progress::AwaitWrite => wait_for_write && queueing is Queued,
            Progress::Answer(reply) => !(wait_for_write && queueing is Queued)
                && forall|stored: bool|
                reply == #[trigger] answer(count, wait_for_write, queueing, stored),
        },
{
    match queueing {
        Queueing::TimedOut => Progress::Answer(Err(Reject::Busy)),
        Queueing::Closed => Progress::Answer(Err(Reject::Closed)),
        Queueing::Queued => {
            if wait_for_write {
                Progress::AwaitWrite
            } else {
                Progress::Answer(Ok(count))
            }
        },
    }
}

/// It has turned out whether the spans of a request were stored.
pub fn on_write(count: usize, stored: bool) -> (r: Result<usize, Reject>)
    requires
        count > 0,
    ensures
        r == answer(count, true, Queueing::Queued, stored),
{
    if stored {
        Ok(count)
    } else {
        Err(Reject::WriteFailed)
    }
}

// ---------------------------------------------------------------------------------------------
// HTTP
// ---------------------------------------------------------------------------------------------

/// How a request is written, and its answer.
#[derive(Clone, Copy, Debug, PartialEq, Eq, Structural)]
pub enum Encoding {
    Protobuf,
    Json,
}

impl Encoding {
    pub open spec fn media_type(self) -> Seq<char> {
        match self {
            Encoding::Protobuf => "application/x-protobuf"@,
            Encoding::Json => "application/json"@,
        }
    }

    pub fn content_type(self) -> (r: &'static str)
        ensures
            r@ == self.media_type(),
    {
        match self {
            Encoding::Protobuf => "application/x-protobuf",
            Encoding::Json => "application/json",
        }
    }
}

/// What a reply carries.
#[derive(Debug, PartialEq, Eq)]
pub enum Body {
    Text(String),
    Bytes(Vec<u8>),
}

/// A reply to an HTTP request.
#[derive(Debug, PartialEq, Eq)]
pub struct Reply {
    pub status: u16,
    pub header: Option<(&'static str, &'static str)>,
    pub body: Body,
}

/// What a [`Reply`] stands for.
pub ghost enum ReplyModel {
    /// A text with a status.
    Text(u16, Seq<char>),
    /// A text with a status and a header.
    Headed(u16, Seq<char>, Seq<char>, Seq<char>),
    /// Bytes with a status and a header.
    Bytes(u16, Seq<char>, Seq<char>, Seq<u8>),
    /// Bytes with a status.
    Bare(u16, Seq<u8>),
}

impl Reply {
    pub open spec fn view(&self) -> ReplyModel {
        match (self.header, self.body) {
            (None, Body::Text(text)) => ReplyModel::Text(self.status, text@),
            (Some((name, value)), Body::Text(text)) => ReplyModel::Headed(
                self.status,
                name@,
                value@,
                text@,
            ),
            (Some((name, value)), Body::Bytes(bytes)) => ReplyModel::Bytes(
                self.status,
                name@,
                value@,
                bytes@,
            ),
            (None, Body::Bytes(bytes)) => ReplyModel::Bare(self.status, bytes@),
        }
    }

    fn text(status: u16, text: String) -> (r: Reply)
        ensures
            r@ == ReplyModel::Text(status, text@),
    {
        Reply { status, header: None, body: Body::Text(text) }
    }
}

/// The encoding that a content type names, whatever its parameters and its case.
pub open spec fn encoding_named(content_type: Option<Seq<char>>) -> Option<Encoding> {
    match content_type {
        Some(header) => {
            let name = lower(trim(until(header, ';')));
            if name == Encoding::Protobuf.media_type() {
                Some(Encoding::Protobuf)
            } else if name == Encoding::Json.media_type() {
                Some(Encoding::Json)
            } else {
                None
            }
        },
        None => None,
    }
}

/// What a header that may be missing stands for.
pub open spec fn header_text(header: Option<&str>) -> Option<Seq<char>> {
    match header {
        Some(text) => Some(text@),
        None => None,
    }
}

/// The encoding that a content type names.
pub fn encoding_of(content_type: Option<&str>) -> (r: Option<Encoding>)
    ensures
        r == encoding_named(header_text(content_type)),
{
    match content_type {
        Some(header) => {
            let chars = chars_of(header);
            let end = position_of(&chars, ';');
            assert(chars@.subrange(0, end as int) =~= chars@.take(end as int));
            let name = lowered(trimmed_range(&chars, 0, end).as_str());
            if same(name.as_str(), "application/x-protobuf") {
                Some(Encoding::Protobuf)
            } else if same(name.as_str(), "application/json") {
                Some(Encoding::Json)
            } else {
                None
            }
        },
        None => None,
    }
}

/// How a body is packed.
pub ghost enum Packing {
    Plain,
    Gzip,
    Unknown(Seq<char>),
}

/// How a body is packed, by its content encoding.
pub open spec fn packing_named(content_encoding: Option<Seq<char>>) -> Packing {
    match content_encoding {
        Some(header) => {
            let name = lower(trim(header));
            if name == ""@ || name == "identity"@ {
                Packing::Plain
            } else if name == "gzip"@ {
                Packing::Gzip
            } else {
                Packing::Unknown(name)
            }
        },
        None => Packing::Plain,
    }
}

/// What is made of an unpacked body: it may have no more than `limit` bytes.
pub open spec fn limited(unpacked: Result<Seq<u8>, Seq<char>>, limit: usize) -> Result<
    Seq<u8>,
    ReplyModel,
> {
    match unpacked {
        Err(cause) => Err(ReplyModel::Text(400, "gzip 解压失败: "@ + cause)),
        Ok(plain) => if plain.len() > limit {
            Err(ReplyModel::Text(413, "解压后超过 "@ + decimal(limit as nat) + " 字节上限"@))
        } else {
            Ok(plain)
        },
    }
}

/// What is made of an unpacked body: it may have no more than `limit` bytes.
pub fn within_limit(unpacked: Result<Vec<u8>, String>, limit: usize) -> (r: Result<Vec<u8>, Reply>)
    ensures
        match limited(
            match unpacked {
                Ok(plain) => Ok(plain@),
                Err(cause) => Err(cause@),
            },
            limit,
        ) {
            Ok(plain) => r is Ok && r->Ok_0@ == plain,
            Err(reply) => r is Err && r->Err_0@ == reply,
        },
{
    match unpacked {
        Err(cause) => {
            let mut text = "gzip 解压失败: ".to_owned();
            text.push_str(cause.as_str());
            Err(Reply::text(400, text))
        },
        Ok(plain) => {
            if plain.len() > limit {
                let mut text = "解压后超过 ".to_owned();
                push_decimal(&mut text, limit as u64);
                text.push_str(" 字节上限");
                Err(Reply::text(413, text))
            } else {
                Ok(plain)
            }
        },
    }
}

/// What is unpacked of a body in gzip: one byte more than is allowed, so that too much shows.
pub open spec fn unpacked(body: Seq<u8>, limit: usize) -> Result<Seq<u8>, Seq<char>> {
    gunzipped(body, (limit + 1) as u64)
}

/// The body of a request, unpacked. What is packed in any other way than by gzip is refused, and
/// so is what unpacks to more than `limit` bytes.
pub open spec fn body_of(
    content_encoding: Option<Seq<char>>,
    body: Seq<u8>,
    limit: usize,
) -> Result<Seq<u8>, ReplyModel> {
    match packing_named(content_encoding) {
        Packing::Plain => Ok(body),
        Packing::Gzip => limited(unpacked(body, limit), limit),
        Packing::Unknown(name) => Err(
            ReplyModel::Text(
                415,
                "不支持的 Content-Encoding: "@ + name + "，只认 gzip"@,
            ),
        ),
    }
}

/// Unpacks the body of a request.
pub fn decode_body(content_encoding: Option<&str>, body: Vec<u8>, limit: usize) -> (r: Result<
    Vec<u8>,
    Reply,
>)
    requires
        limit < u64::MAX,
    ensures
        match body_of(header_text(content_encoding), body@, limit) {
            Ok(plain) => r is Ok && r->Ok_0@ == plain,
            Err(reply) => r is Err && r->Err_0@ == reply,
        },
{
    match content_encoding {
        None => Ok(body),
        Some(header) => {
            let name = lowered(trimmed(header).as_str());
            if same(name.as_str(), "") || same(name.as_str(), "identity") {
                Ok(body)
            } else if same(name.as_str(), "gzip") {
                within_limit(gunzip(&body, limit as u64 + 1), limit)
            } else {
                let mut text = "不支持的 Content-Encoding: ".to_owned();
                text.push_str(name.as_str());
                text.push_str("，只认 gzip");
                Err(Reply::text(415, text))
            }
        },
    }
}

/// A body that is not packed, and says so or says nothing, is taken as it is. A body that is some
/// bytes in gzip gives those bytes back where they are within the limit, and is too large
/// otherwise, however much so. A body that says it is in gzip and is not cannot be read. One that
/// is packed in any other way is refused.
pub proof fn lemma_body(content_encoding: Option<Seq<char>>, body: Seq<u8>, limit: usize)
    requires
        limit < u64::MAX,
    ensures
        ({
            let decoded = body_of(content_encoding, body, limit);
            match packing_named(content_encoding) {
                Packing::Plain => decoded == Ok::<Seq<u8>, ReplyModel>(body),
                Packing::Gzip => {
                    &&& forall|plain: Seq<u8>| #[trigger]
                        reads_back(body, plain) ==> if plain.len() <= limit {
                            decoded == Ok::<Seq<u8>, ReplyModel>(plain)
                        } else {
                            decoded is Err && decoded->Err_0 is Text && decoded->Err_0->Text_0
                                == 413
                        }
                    &&& unpacked(body, limit) is Err ==> decoded is Err && decoded->Err_0 is Text
                        && decoded->Err_0->Text_0 == 400
                },
                Packing::Unknown(_) => decoded is Err && decoded->Err_0 is Text
                    && decoded->Err_0->Text_0 == 415,
            }
        }),
{
    assert forall|plain: Seq<u8>| #[trigger] reads_back(body, plain) && packing_named(
        content_encoding,
    ) is Gzip implies {
        let decoded = body_of(content_encoding, body, limit);
        if plain.len() <= limit {
            decoded == Ok::<Seq<u8>, ReplyModel>(plain)
        } else {
            decoded is Err && decoded->Err_0 is Text && decoded->Err_0->Text_0 == 413
        }
    } by {
        let most = (limit + 1) as u64;
        assert(gunzipped(body, most) is Ok);
    }
}

/// Where the body of a request is within the limit as it comes, it is within the limit unpacked.
pub proof fn lemma_body_is_limited(
    content_encoding: Option<Seq<char>>,
    body: Seq<u8>,
    limit: usize,
)
    requires
        body.len() <= limit,
    ensures
        body_of(content_encoding, body, limit) is Ok ==> body_of(
            content_encoding,
            body,
            limit,
        )->Ok_0.len() <= limit,
{
}

/// `prost`'s error.
#[verifier::external_type_specification]
#[verifier::external_body]
pub struct ExDecodeError(DecodeError);

/// What a `prost::DecodeError` displays.
pub uninterp spec fn decode_error_text(error: DecodeError) -> Seq<char>;

/// A `prost::DecodeError` displayed.
#[verifier::external_body]
fn describe_decode_error(error: &DecodeError) -> (r: String)
    ensures
        r@ == decode_error_text(*error),
{
    error.to_string()
}

/// What `prost` reads out of bytes as an export request.
pub uninterp spec fn protobuf_request(bytes: Seq<u8>) -> Result<
    ExportTraceServiceRequest,
    DecodeError,
>;

/// `prost::Message::decode` of an export request.
#[verifier::external_body]
fn parse_protobuf(bytes: &Vec<u8>) -> (r: Result<ExportTraceServiceRequest, DecodeError>)
    ensures
        r == protobuf_request(bytes@),
{
    ExportTraceServiceRequest::decode(bytes.as_slice())
}

/// What `serde_json` reads out of bytes as an export request.
pub uninterp spec fn json_bytes_request(bytes: Seq<u8>) -> Result<
    ExportTraceServiceRequest,
    JsonError,
>;

/// `serde_json::from_slice` into an export request, by the names and encodings of OTLP/JSON.
#[verifier::external_body]
fn parse_json(bytes: &Vec<u8>) -> (r: Result<ExportTraceServiceRequest, JsonError>)
    ensures
        r == json_bytes_request(bytes@),
{
    serde_json::from_slice(bytes.as_slice())
}

/// `prost::Message::encode_to_vec` of the answer to an export of which nothing was rejected: a
/// message without fields, which is written as no bytes at all.
#[verifier::external_body]
fn protobuf_answer() -> (r: Vec<u8>)
    ensures
        r@.len() == 0,
{
    ExportTraceServiceResponse::default().encode_to_vec()
}

/// What a request that cannot be read is answered.
pub open spec fn unreadable(encoding: Encoding, cause: Seq<char>) -> ReplyModel {
    match encoding {
        Encoding::Protobuf => ReplyModel::Text(400, "protobuf 解析失败: "@ + cause),
        Encoding::Json => ReplyModel::Text(400, "JSON 解析失败: "@ + cause),
    }
}

/// The export request that bytes hold, or the reason why they hold none.
pub open spec fn request_in(encoding: Encoding, bytes: Seq<u8>) -> Result<
    ExportTraceServiceRequest,
    Seq<char>,
> {
    match encoding {
        Encoding::Protobuf => match protobuf_request(bytes) {
            Ok(request) => Ok(request),
            Err(error) => Err(decode_error_text(error)),
        },
        Encoding::Json => match json_bytes_request(bytes) {
            Ok(request) => Ok(request),
            Err(error) => Err(json_error_text(error)),
        },
    }
}

/// What is made of a request that was read, or could not be read.
pub fn readable(
    encoding: Encoding,
    outcome: Result<ExportTraceServiceRequest, String>,
) -> (r: Result<ExportTraceServiceRequest, Reply>)
    ensures
        match outcome {
            Ok(request) => r == Ok::<ExportTraceServiceRequest, Reply>(request),
            Err(cause) => r is Err && r->Err_0@ == unreadable(encoding, cause@),
        },
{
    match outcome {
        Ok(request) => Ok(request),
        Err(cause) => {
            let mut text = match encoding {
                Encoding::Protobuf => "protobuf 解析失败: ".to_owned(),
                Encoding::Json => "JSON 解析失败: ".to_owned(),
            };
            text.push_str(cause.as_str());
            Err(Reply::text(400, text))
        },
    }
}

/// Reads an export request.
fn read_request(encoding: Encoding, bytes: &Vec<u8>) -> (r: Result<
    ExportTraceServiceRequest,
    String,
>)
    ensures
        match request_in(encoding, bytes@) {
            Ok(request) => r == Ok::<ExportTraceServiceRequest, String>(request),
            Err(cause) => r is Err && r->Err_0@ == cause,
        },
{
    match encoding {
        Encoding::Protobuf => match parse_protobuf(bytes) {
            Ok(request) => Ok(request),
            Err(error) => Err(describe_decode_error(&error)),
        },
        Encoding::Json => match parse_json(bytes) {
            Ok(request) => Ok(request),
            Err(error) => Err(describe_json_error(&error)),
        },
    }
}

/// The export request that an HTTP request carries and how it is written, or what is answered
/// instead: a content type that is not known, a body that cannot be unpacked, a body that is too
/// large and a body that cannot be read are refused, in this order.
pub open spec fn request_of(
    content_type: Option<Seq<char>>,
    content_encoding: Option<Seq<char>>,
    body: Seq<u8>,
    limit: usize,
) -> Result<(Encoding, ExportTraceServiceRequest), ReplyModel> {
    match encoding_named(content_type) {
        None => Err(
            ReplyModel::Text(
                415,
                "Content-Type 只支持 application/x-protobuf 或 application/json"@,
            ),
        ),
        Some(encoding) => match body_of(content_encoding, body, limit) {
            Err(reply) => Err(reply),
            Ok(plain) => match request_in(encoding, plain) {
                Ok(request) => Ok((encoding, request)),
                Err(cause) => Err(unreadable(encoding, cause)),
            },
        },
    }
}

/// Reads an HTTP request.
pub fn open_http(
    content_type: Option<&str>,
    content_encoding: Option<&str>,
    body: Vec<u8>,
    limit: usize,
) -> (r: Result<(Encoding, ExportTraceServiceRequest), Reply>)
    requires
        limit < u64::MAX,
    ensures
        match request_of(
            header_text(content_type),
            header_text(content_encoding),
            body@,
            limit,
        ) {
            Ok(pair) => r == Ok::<(Encoding, ExportTraceServiceRequest), Reply>(pair),
            Err(reply) => r is Err && r->Err_0@ == reply,
        },
{
    let encoding = match encoding_of(content_type) {
        Some(encoding) => encoding,
        None => {
            let text = "Content-Type 只支持 application/x-protobuf 或 application/json";
            return Err(Reply::text(415, text.to_owned()));
        },
    };
    let plain = match decode_body(content_encoding, body, limit) {
        Ok(plain) => plain,
        Err(reply) => {
            return Err(reply);
        },
    };
    match readable(encoding, read_request(encoding, &plain)) {
        Ok(request) => Ok((encoding, request)),
        Err(reply) => Err(reply),
    }
}

/// What an export is answered: success in the encoding of the request, and else that its sender
/// is to come back in a second.
pub open spec fn export_reply(encoding: Encoding, accepted: Result<usize, Reject>) -> ReplyModel {
    match accepted {
        Ok(_) => ReplyModel::Bytes(
            200,
            "content-type"@,
            encoding.media_type(),
            match encoding {
                Encoding::Protobuf => Seq::empty(),
                Encoding::Json => seq![123, 125],
            },
        ),
        Err(reject) => ReplyModel::Headed(503, "retry-after"@, "1"@, reject.text()),
    }
}

/// Answers an export.
pub fn close_http(encoding: Encoding, accepted: Result<usize, Reject>) -> (r: Reply)
    ensures
        r@ == export_reply(encoding, accepted),
{
    match accepted {
        Ok(_) => {
            let body: Vec<u8> = match encoding {
                Encoding::Protobuf => protobuf_answer(),
                Encoding::Json => vec![123, 125],
            };
            assert(body@ =~= match encoding {
                Encoding::Protobuf => Seq::empty(),
                Encoding::Json => seq![123u8, 125u8],
            });
            Reply {
                status: 200,
                header: Some(("content-type", encoding.content_type())),
                body: Body::Bytes(body),
            }
        },
        Err(reject) => Reply {
            status: 503,
            header: Some(("retry-after", "1")),
            body: Body::Text(reject.message().to_owned()),
        },
    }
}

/// The sender of a request that was not accepted is asked to send it again: the reply has the
/// status for that, and says when. A request that is bad in itself gets another status, on which
/// senders do not come back.
pub proof fn lemma_only_rejects_are_retried(
    content_type: Option<Seq<char>>,
    content_encoding: Option<Seq<char>>,
    body: Seq<u8>,
    limit: usize,
    encoding: Encoding,
    reject: Reject,
)
    ensures
        export_reply(encoding, Err(reject)) is Headed,
        export_reply(encoding, Err(reject))->Headed_0 == 503,
        export_reply(encoding, Err(reject))->Headed_1 == "retry-after"@,
        request_of(content_type, content_encoding, body, limit) is Err ==> ({
            let reply = request_of(content_type, content_encoding, body, limit)->Err_0;
            reply is Text && (reply->Text_0 == 400 || reply->Text_0 == 413 || reply->Text_0
                == 415)
        }),
{
}

} // verus!
