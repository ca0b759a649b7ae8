//! The program: what it is asked for, and what it says.

use vstd::prelude::*;

use crate::clock::timestamp_text;
use crate::cli::{command_of, CommandModel};
use crate::error::{failure_text, io_context, Failure, IoKind};
use crate::event::{text_line, SpanModel};
use crate::laws::table::ends;
use crate::sink::statements::begins;
use crate::text::{join, lemma_join_step};

verus! {

/// The path that the arguments name after the first one, or the usual one.
pub open spec fn second_or_usual(args: Seq<Seq<char>>) -> Seq<char> {
    if args.len() >= 2 {
        args[1]
    } else {
        "tracepipe.yaml"@
    }
}

/// `--help` and `-h` ask for help; `--check` and `--ddl` ask for what they say, with the path
/// behind them; any other argument that begins with a dash is not known, and any other at all is
/// the path to run with. Without a path the usual one is taken.
pub proof fn lemma_what_is_asked_for(args: Seq<Seq<char>>)
    ensures
        args.len() == 0 ==> command_of(args) == CommandModel::Run("tracepipe.yaml"@),
        args.len() > 0 ==> {
            let first = args[0];
            let dashed = first.len() > 0 && first[0] == '-';
            let help = first == "--help"@ || first == "-h"@;
            let check = first == "--check"@;
            let ddl = first == "--ddl"@;
            &&& help ==> command_of(args) is Help
            &&& check ==> command_of(args) == CommandModel::Check(second_or_usual(args))
            &&& ddl ==> command_of(args) == CommandModel::Ddl(second_or_usual(args))
            &&& dashed && !help && !check && !ddl ==> command_of(args) == CommandModel::Unknown(
                first,
            )
            &&& !dashed ==> command_of(args) == CommandModel::Run(first)
        },
{
    reveal_strlit("--help");
    reveal_strlit("-h");
    reveal_strlit("--check");
    reveal_strlit("--ddl");
    assert("--help"@.len() == 6 && "-h"@.len() == 2 && "--check"@.len() == 7 && "--ddl"@.len()
        == 5);
}

/// What is said about an error ends with its cause. An error of the configuration, of receiving or
/// of storing begins with which of these it is, and one of input and output with what was done.
pub proof fn lemma_what_is_said_about_an_error(failure: Failure)
    ensures
        match failure {
            Failure::Config(cause) => failure_text(failure) == "配置错误: "@ + cause,
            Failure::Source(cause) => failure_text(failure) == "接收失败: "@ + cause,
            Failure::Sink(cause) => failure_text(failure) == "入库失败: "@ + cause,
            Failure::Io(cause) => failure_text(failure) == cause,
            Failure::IoContext(context, cause) => begins(failure_text(failure), context) && ends(
                failure_text(failure),
                ": "@ + cause,
            ),
            Failure::Json(cause) => failure_text(failure) == cause,
            Failure::Other(cause) => failure_text(failure) == cause,
        },
{
    if let Failure::IoContext(context, cause) = failure {
        let text = failure_text(failure);
        let tail = ": "@ + cause;
        assert(text.take(context.len() as int) =~= context);
        assert(text.skip(text.len() - tail.len()) =~= tail);
    }
}

/// What was done always begins what is said; advice in brackets follows for a refused permission
/// and for an address that is taken, and each has its own.
#[verifier::spinoff_prover]
#[verifier::rlimit(40)]
pub proof fn lemma_advice(context: Seq<char>, kind: IoKind)
    ensures
        begins(io_context(context, kind), context),
        kind is Other ==> io_context(context, kind) == context,
        kind is PermissionDenied ==> begins(
            io_context(context, kind),
            context + "（当前用户没有权限"@,
        ) && ends(io_context(context, kind), "）"@),
        kind is AddrInUse ==> begins(io_context(context, kind), context + "（端口被占用"@) && ends(
            io_context(context, kind),
            "）"@,
        ),
{
    let text = io_context(context, kind);
    assert(text.take(context.len() as int) =~= context);
    reveal_strlit("（当前用户没有权限");
    reveal_strlit("（端口被占用");
    reveal_strlit("）");
    reveal_strlit("（当前用户没有权限；1024 以下的端口需要 root 或 CAP_NET_BIND_SERVICE）");
    reveal_strlit("（端口被占用；是不是已经有一个实例在跑）");
    if kind is PermissionDenied {
        let head = context + "（当前用户没有权限"@;
        assert(text.take(head.len() as int) =~= head);
        assert(text.skip(text.len() - 1) =~= "）"@);
    } else if kind is AddrInUse {
        let head = context + "（端口被占用"@;
        assert(text.take(head.len() as int) =~= head);
        assert(text.skip(text.len() - 1) =~= "）"@);
    }
}

/// Nine words with a space between each two.
#[verifier::spinoff_prover]
#[verifier::rlimit(40)]
proof fn lemma_nine_words(words: Seq<Seq<char>>)
    requires
        words.len() == 9,
    ensures
        join(words, " "@) == words[0] + " "@ + words[1] + " "@ + words[2] + " "@ + words[3] + " "@
            + words[4] + " "@ + words[5] + " "@ + words[6] + " "@ + words[7] + " "@ + words[8],
{
    assert(words.take(9) =~= words);
    lemma_join_step(words, " "@, 0);
    lemma_join_step(words, " "@, 1);
    lemma_join_step(words, " "@, 2);
    lemma_join_step(words, " "@, 3);
    lemma_join_step(words, " "@, 4);
    lemma_join_step(words, " "@, 5);
    lemma_join_step(words, " "@, 6);
    lemma_join_step(words, " "@, 7);
    lemma_join_step(words, " "@, 8);
}

/// The words of the line for people to read.
#[verifier::spinoff_prover]
#[verifier::rlimit(40)]
proof fn lemma_words_of_a_line(
    time: Seq<char>,
    service: Seq<char>,
    name: Seq<char>,
    kind: Seq<char>,
    millis: Seq<char>,
    status: Seq<char>,
    trace: Seq<char>,
    span: Seq<char>,
    parent: Seq<char>,
)
    ensures
        time + " "@ + service + " "@ + name + " "@ + kind + " "@ + millis + "ms "@ + status
            + " trace="@ + trace + " span="@ + span + " parent="@ + parent == time + " "@ + service
            + " "@ + name + " "@ + kind + " "@ + (millis + "ms"@) + " "@ + status + " "@ + (
        "trace="@ + trace) + " "@ + ("span="@ + span) + " "@ + ("parent="@ + parent),
{
    reveal_strlit(" ");
    reveal_strlit("ms");
    reveal_strlit("ms ");
    reveal_strlit("trace=");
    reveal_strlit(" trace=");
    reveal_strlit("span=");
    reveal_strlit(" span=");
    reveal_strlit("parent=");
    reveal_strlit(" parent=");
    let front = time + " "@ + service + " "@ + name + " "@ + kind + " "@;
    assert(front + millis + "ms "@ =~= front + (millis + "ms"@) + " "@);
    let middle = front + millis + "ms "@ + status;
    assert(middle + " trace="@ + trace =~= middle + " "@ + ("trace="@ + trace));
    let late = middle + " trace="@ + trace;
    assert(late + " span="@ + span =~= late + " "@ + ("span="@ + span));
    let last = late + " span="@ + span;
    assert(last + " parent="@ + parent =~= last + " "@ + ("parent="@ + parent));
}

/// The line for people to read shows nine things with a space between each two: time, service,
/// name, kind, duration, status and the three identifiers, each of these after its name.
pub proof fn lemma_what_a_line_shows(span: SpanModel, millis: Seq<char>)
    ensures
        text_line(span, millis) == join(
            seq![
                timestamp_text(span.timestamp, "UTC"@),
                span.service_name,
                span.span_name,
                span.span_kind.name(),
                millis + "ms"@,
                span.status_code.name(),
                "trace="@ + span.trace_id,
                "span="@ + span.span_id,
                "parent="@ + span.parent_span_id,
            ],
            " "@,
        ),
{
    let time = timestamp_text(span.timestamp, "UTC"@);
    let words = seq![
        time,
        span.service_name,
        span.span_name,
        span.span_kind.name(),
        millis + "ms"@,
        span.status_code.name(),
        "trace="@ + span.trace_id,
        "span="@ + span.span_id,
        "parent="@ + span.parent_span_id,
    ];
    lemma_nine_words(words);
    lemma_words_of_a_line(
        time,
        span.service_name,
        span.span_name,
        span.span_kind.name(),
        millis,
        span.status_code.name(),
        span.trace_id,
        span.span_id,
        span.parent_span_id,
    );
}

} // verus!
