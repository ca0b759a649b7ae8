//! Receiving over HTTP: how requests are read and what they are answered.

use opentelemetry_proto::tonic::collector::trace::v1::ExportTraceServiceRequest;
use vstd::prelude::*;

use crate::compression::gunzipped;
use crate::error::{Error, Failure, IoKind};
use crate::laws::words::{
    is_bare, is_blank, lemma_lower, lemma_trim, lemma_trim_is_the_core, stands_in,
};
use crate::otlp::json_error_text;
use crate::sink::statements::begins;
use crate::source::otlp::{
    answer, body_of, decode_error_text, encoding_named, export_reply, json_bytes_request,
    listen_trouble, listener_result, packing_named, protobuf_request, request_in, request_of,
    Encoding, Packing, Queueing, Reject, ReplyModel,
};
use crate::text::{decimal, lower, trim, until};

verus! {

/// The part of a content type before its parameters is `name`, in whatever case and with white
/// space around it or not.
pub open spec fn names_type(content_type: Seq<char>, name: Seq<char>) -> bool {
    exists|word: Seq<char>|
        #[trigger] stands_in(until(content_type, ';'), word) && is_bare(word) && lower(word)
            == name
}

proof fn lemma_names_type(content_type: Seq<char>, name: Seq<char>)
    requires
        name.len() > 0,
    ensures
        names_type(content_type, name) <==> lower(trim(until(content_type, ';'))) == name,
{
    let part = until(content_type, ';');
    lemma_trim(part);
    if names_type(content_type, name) {
        let word = choose|word: Seq<char>|
            #[trigger] stands_in(part, word) && is_bare(word) && lower(word) == name;
        lemma_lower(word);
        lemma_trim_is_the_core(part, word);
    }
    if lower(trim(part)) == name {
        assert(stands_in(part, trim(part)));
    }
}

/// A request is in protobuf exactly if its content type names that, in JSON exactly if it names
/// that, and in no encoding that is known otherwise. Neither its parameters nor its case matter.
pub proof fn lemma_which_encoding(content_type: Seq<char>)
    ensures
        encoding_named(None) is None,
        encoding_named(Some(content_type)) == Some(Encoding::Protobuf) <==> names_type(
            content_type,
            "application/x-protobuf"@,
        ),
        encoding_named(Some(content_type)) == Some(Encoding::Json) <==> names_type(
            content_type,
            "application/json"@,
        ),
{
    reveal_strlit("application/x-protobuf");
    reveal_strlit("application/json");
    assert("application/x-protobuf"@.len() == 22 && "application/json"@.len() == 16);
    lemma_names_type(content_type, "application/x-protobuf"@);
    lemma_names_type(content_type, "application/json"@);
}

/// A content encoding is `name`, in whatever case and with white space around it or not.
pub open spec fn is_called(content_encoding: Seq<char>, name: Seq<char>) -> bool {
    exists|word: Seq<char>|
        #[trigger] stands_in(content_encoding, word) && is_bare(word) && lower(word) == name
}

proof fn lemma_is_called(content_encoding: Seq<char>, name: Seq<char>)
    requires
        name.len() > 0,
    ensures
        is_called(content_encoding, name) <==> lower(trim(content_encoding)) == name,
{
    lemma_trim(content_encoding);
    if is_called(content_encoding, name) {
        let word = choose|word: Seq<char>|
            #[trigger] stands_in(content_encoding, word) && is_bare(word) && lower(word) == name;
        lemma_lower(word);
        lemma_trim_is_the_core(content_encoding, word);
    }
    if lower(trim(content_encoding)) == name {
        assert(stands_in(content_encoding, trim(content_encoding)));
    }
}

/// A body is in gzip exactly if its content encoding says so. It is as it is where nothing is said
/// about that, and where `identity` is said. Anything else is not known.
pub proof fn lemma_which_packing(content_encoding: Seq<char>)
    ensures
        packing_named(None) is Plain,
        packing_named(Some(content_encoding)) is Gzip <==> is_called(content_encoding, "gzip"@),
        packing_named(Some(content_encoding)) is Plain <==> is_blank(content_encoding) || is_called(
            content_encoding,
            "identity"@,
        ),
        packing_named(Some(content_encoding)) is Unknown ==> is_called(
            content_encoding,
            packing_named(Some(content_encoding))->Unknown_0,
        ),
{
    reveal_strlit("");
    reveal_strlit("gzip");
    reveal_strlit("identity");
    assert("gzip"@.len() == 4 && "identity"@.len() == 8 && ""@.len() == 0);
    lemma_is_called(content_encoding, "gzip"@);
    lemma_is_called(content_encoding, "identity"@);
    lemma_trim(content_encoding);
    let name = lower(trim(content_encoding));
    lemma_lower(trim(content_encoding));
    if name.len() > 0 {
        lemma_is_called(content_encoding, name);
    } else {
        assert(name =~= ""@);
    }
}

/// A body that is not packed is taken as it is. One in gzip is unpacked to one byte more than is
/// allowed: what cannot be unpacked is answered with 400 and why, what is longer than is allowed
/// with 413, and all else is what came out. Any other packing is answered with 415 and its name.
pub proof fn lemma_how_a_body_is_read(
    content_encoding: Option<Seq<char>>,
    body: Seq<u8>,
    limit: usize,
)
    ensures
        ({
            let decoded = body_of(content_encoding, body, limit);
            match packing_named(content_encoding) {
                Packing::Plain => decoded == Ok::<Seq<u8>, ReplyModel>(body),
                Packing::Gzip => match gunzipped(body, (limit + 1) as u64) {
                    Ok(plain) => {
                        &&& plain.len() <= limit ==> decoded == Ok::<Seq<u8>, ReplyModel>(plain)
                        &&& plain.len() > limit ==> decoded == Err::<Seq<u8>, ReplyModel>(
                            ReplyModel::Text(
                                413,
                                "解压后超过 "@ + decimal(limit as nat) + " 字节上限"@,
                            ),
                        )
                    },
                    Err(cause) => decoded == Err::<Seq<u8>, ReplyModel>(
                        ReplyModel::Text(400, "gzip 解压失败: "@ + cause),
                    ),
                },
                Packing::Unknown(name) => decoded is Err && decoded->Err_0 is Text
                    && decoded->Err_0->Text_0 == 415 && begins(
                    decoded->Err_0->Text_1,
                    "不支持的 Content-Encoding: "@ + name,
                ),
            }
        }),
{
    if let Packing::Unknown(name) = packing_named(content_encoding) {
        let head = "不支持的 Content-Encoding: "@ + name;
        let text = body_of(content_encoding, body, limit)->Err_0->Text_1;
        assert(text.take(head.len() as int) =~= head);
    }
}

/// Bytes are read as the encoding says: as protobuf by `prost`, as JSON by `serde_json`, and the
/// error of whichever reads them is given.
pub proof fn lemma_bytes_are_read_in_their_encoding(bytes: Seq<u8>)
    ensures
        match protobuf_request(bytes) {
            Ok(request) => request_in(Encoding::Protobuf, bytes) == Ok::<_, Seq<char>>(request),
            Err(error) => request_in(Encoding::Protobuf, bytes) == Err::<
                ExportTraceServiceRequest,
                _,
            >(decode_error_text(error)),
        },
        match json_bytes_request(bytes) {
            Ok(request) => request_in(Encoding::Json, bytes) == Ok::<_, Seq<char>>(request),
            Err(error) => request_in(Encoding::Json, bytes) == Err::<ExportTraceServiceRequest, _>(
                json_error_text(error),
            ),
        },
{
}

/// A request is taken exactly if its content type is known, its body can be unpacked and the body
/// can be read in that encoding; and then it is what the body holds. Of several reasons against it
/// the first in this order is answered: 415 for the type, what unpacking says, and 400 with the
/// reason for a body that cannot be read.
pub proof fn lemma_which_requests_are_taken(
    content_type: Option<Seq<char>>,
    content_encoding: Option<Seq<char>>,
    body: Seq<u8>,
    limit: usize,
)
    ensures
        ({
            let taken = request_of(content_type, content_encoding, body, limit);
            let encoding = encoding_named(content_type);
            let decoded = body_of(content_encoding, body, limit);
            &&& encoding is None ==> taken is Err && taken->Err_0 == ReplyModel::Text(
                415,
                "Content-Type 只支持 application/x-protobuf 或 application/json"@,
            )
            &&& encoding is Some && decoded is Err ==> taken is Err && taken->Err_0
                == decoded->Err_0
            &&& encoding is Some && decoded is Ok ==> match request_in(
                encoding->0,
                decoded->Ok_0,
            ) {
                Ok(request) => taken is Ok && taken->Ok_0 == (encoding->0, request),
                Err(cause) => {
                    &&& taken is Err && taken->Err_0 is Text && taken->Err_0->Text_0 == 400
                    &&& encoding->0 is Protobuf ==> taken->Err_0->Text_1
                        == "protobuf 解析失败: "@ + cause
                    &&& encoding->0 is Json ==> taken->Err_0->Text_1 == "JSON 解析失败: "@ + cause
                },
            }
        }),
{
}

/// A request without spans is accepted at once. One with spans is accepted, with all of them,
/// exactly if they went into the queue and, where that is waited for, were stored. Else the answer
/// says which of these failed.
pub proof fn lemma_what_a_request_is_answered(
    count: usize,
    wait_for_write: bool,
    queueing: Queueing,
    stored: bool,
)
    ensures
        ({
            let reply = answer(count, wait_for_write, queueing, stored);
            &&& reply is Ok ==> reply->Ok_0 == count
            &&& count == 0 ==> reply is Ok
            &&& count > 0 && queueing is TimedOut ==> reply == Err::<usize, Reject>(Reject::Busy)
            &&& count > 0 && queueing is Closed ==> reply == Err::<usize, Reject>(Reject::Closed)
            &&& count > 0 && queueing is Queued && wait_for_write && !stored ==> reply == Err::<
                usize,
                Reject,
            >(Reject::WriteFailed)
            &&& count > 0 && queueing is Queued && (stored || !wait_for_write) ==> reply is Ok
        }),
{
}

/// A request that is accepted is answered with 200 and an empty answer in its own encoding: no
/// bytes in protobuf, and `{}` in JSON. One that is not is answered with 503, that it may come
/// back in a second, and why.
pub proof fn lemma_how_an_export_is_answered(
    encoding: Encoding,
    accepted: Result<usize, Reject>,
)
    ensures
        ({
            let reply = export_reply(encoding, accepted);
            match accepted {
                Ok(_) => {
                    &&& reply is Bytes
                    &&& reply->Bytes_0 == 200
                    &&& reply->Bytes_1 == "content-type"@
                    &&& encoding is Protobuf ==> reply->Bytes_2 == "application/x-protobuf"@
                        && reply->Bytes_3.len() == 0
                    &&& encoding is Json ==> reply->Bytes_2 == "application/json"@ && reply->Bytes_3
                        == seq!['{' as u8, '}' as u8]
                },
                Err(reject) => {
                    &&& reply is Headed
                    &&& reply->Headed_0 == 503
                    &&& reply->Headed_1 == "retry-after"@
                    &&& reply->Headed_2 == "1"@
                    &&& reject is Busy ==> reply->Headed_3 == "下游队列已满，稍后重试"@
                    &&& reject is Closed ==> reply->Headed_3 == "正在退出，稍后重试"@
                    &&& reject is WriteFailed ==> reply->Headed_3 == "写入存储失败，稍后重试"@
                },
            }
        }),
{
    assert('{' as u8 == 123u8 && '}' as u8 == 125u8);
}

/// What is said about an address that cannot be listened at begins with the way in and the
/// address, and gives the cause.
pub proof fn lemma_listening_failed(
    what: Seq<char>,
    addr: Seq<char>,
    kind: IoKind,
    cause: Seq<char>,
)
    ensures
        ({
            let trouble = listen_trouble(what, addr, kind, cause);
            &&& trouble is IoContext
            &&& begins(trouble->IoContext_0, "监听 "@ + what + " "@ + addr + " 失败"@)
            &&& trouble->IoContext_1 == cause
        }),
{
    let head = "监听 "@ + what + " "@ + addr + " 失败"@;
    let text = listen_trouble(what, addr, kind, cause)->IoContext_0;
    assert(text.take(head.len() as int) =~= head);
}

/// A way in comes to what its task came to; a task that broke down is an error with what is known
/// about it.
pub proof fn lemma_what_a_way_in_comes_to(finished: Result<Result<(), Error>, String>)
    ensures
        finished is Ok && finished->Ok_0 is Ok <==> listener_result(finished) is Ok,
        finished is Ok && finished->Ok_0 is Err ==> listener_result(finished) == Err::<
            (),
            Failure,
        >(finished->Ok_0->Err_0@),
        finished is Err ==> listener_result(finished) == Err::<(), Failure>(
            Failure::Other("监听任务异常退出: "@ + finished->Err_0@),
        ),
{
}

} // verus!
