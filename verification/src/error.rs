//! What can go wrong.

use std::io::{Error as IoError, ErrorKind};

use vstd::prelude::*;

verus! {

/// An error. Each variant holds the text of its cause.
#[derive(Debug, PartialEq, Eq)]
pub enum Error {
    /// The configuration cannot be used.
    Config(String),
    /// Receiving failed.
    Source(String),
    /// Storing failed.
    Sink(String),
    /// Input or output failed.
    Io(String),
    /// Input or output failed, with what was being done and why it failed.
    IoContext(String, String),
    /// Text is not the JSON that was expected.
    Json(String),
    /// Anything else.
    Other(String),
}

/// What a [`Error`] stands for.
pub ghost enum Failure {
    Config(Seq<char>),
    Source(Seq<char>),
    Sink(Seq<char>),
    Io(Seq<char>),
    IoContext(Seq<char>, Seq<char>),
    Json(Seq<char>),
    Other(Seq<char>),
}

/// The kinds of input and output errors that call for advice.
#[derive(Clone, Copy, Debug, PartialEq, Eq, Structural)]
pub enum IoKind {
    PermissionDenied,
    AddrInUse,
    Other,
}

/// `std::io`'s error.
#[verifier::external_type_specification]
#[verifier::external_body]
pub struct ExIoError(IoError);

/// A `std::io::Error` displayed. Nothing is claimed of the text: that of an error of the operating
/// system comes from the system, and may be in the language of its user.
#[verifier::external_body]
pub(crate) fn describe_io_error(error: &IoError) -> (r: String) {
    error.to_string()
}

/// Which kind a `std::io::Error` is of.
pub uninterp spec fn io_error_kind(error: IoError) -> IoKind;

/// `std::io::Error::kind`, as far as it calls for advice.
#[verifier::external_body]
pub(crate) fn kind_of(error: &IoError) -> (r: IoKind)
    ensures
        r == io_error_kind(*error),
{
    match error.kind() {
        ErrorKind::PermissionDenied => IoKind::PermissionDenied,
        ErrorKind::AddrInUse => IoKind::AddrInUse,
        _ => IoKind::Other,
    }
}

/// What is said about an input or output error: what was being done, and for two kinds of error
/// what may be the matter.
pub open spec fn io_context(context: Seq<char>, kind: IoKind) -> Seq<char> {
    match kind {
        IoKind::PermissionDenied => context
            + "（当前用户没有权限；1024 以下的端口需要 root 或 CAP_NET_BIND_SERVICE）"@,
        IoKind::AddrInUse => context + "（端口被占用；是不是已经有一个实例在跑）"@,
        IoKind::Other => context,
    }
}

/// The text that an error is reported with.
pub open spec fn failure_text(failure: Failure) -> Seq<char> {
    match failure {
        Failure::Config(cause) => "配置错误: "@ + cause,
        Failure::Source(cause) => "接收失败: "@ + cause,
        Failure::Sink(cause) => "入库失败: "@ + cause,
        Failure::Io(cause) => cause,
        Failure::IoContext(context, cause) => context + ": "@ + cause,
        Failure::Json(cause) => cause,
        Failure::Other(cause) => cause,
    }
}

impl Error {
    pub open spec fn view(&self) -> Failure {
        match self {
            Error::Config(cause) => Failure::Config(cause@),
            Error::Source(cause) => Failure::Source(cause@),
            Error::Sink(cause) => Failure::Sink(cause@),
            Error::Io(cause) => Failure::Io(cause@),
            Error::IoContext(context, cause) => Failure::IoContext(context@, cause@),
            Error::Json(cause) => Failure::Json(cause@),
            Error::Other(cause) => Failure::Other(cause@),
        }
    }

    pub fn config(message: &str) -> (r: Error)
        ensures
            r@ == Failure::Config(message@),
    {
        Error::Config(message.to_owned())
    }

    pub fn source(message: &str) -> (r: Error)
        ensures
            r@ == Failure::Source(message@),
    {
        Error::Source(message.to_owned())
    }

    pub fn sink(message: &str) -> (r: Error)
        ensures
            r@ == Failure::Sink(message@),
    {
        Error::Sink(message.to_owned())
    }

    pub fn other(message: &str) -> (r: Error)
        ensures
            r@ == Failure::Other(message@),
    {
        Error::Other(message.to_owned())
    }

    /// An input or output error together with what was being done. The cause is the text that the
    /// error is displayed with, whatever that is.
    pub fn io(context: &str, error: IoError) -> (r: Error)
        ensures
            r@ is IoContext,
            r@->IoContext_0 == io_context(context@, io_error_kind(error)),
    {
        let cause = describe_io_error(&error);
        Error::io_context(context, kind_of(&error), cause.as_str())
    }

    /// An input or output error of a kind together with what was being done; a refused permission
    /// and a port that is taken get a word of advice.
    pub fn io_context(context: &str, kind: IoKind, cause: &str) -> (r: Error)
        ensures
            r@ == Failure::IoContext(io_context(context@, kind), cause@),
    {
        let mut text = context.to_owned();
        match kind {
            IoKind::PermissionDenied => {
                text.push_str(
                    "（当前用户没有权限；1024 以下的端口需要 root 或 CAP_NET_BIND_SERVICE）",
                );
            },
            IoKind::AddrInUse => {
                text.push_str("（端口被占用；是不是已经有一个实例在跑）");
            },
            IoKind::Other => {},
        }
        Error::IoContext(text, cause.to_owned())
    }

    /// The text that the error is reported with.
    pub fn message(&self) -> (r: String)
        ensures
            r@ == failure_text(self@),
    {
        let mut text = String::new();
        match self {
            Error::Config(cause) => {
                text.push_str("配置错误: ");
                text.push_str(cause.as_str());
            },
            Error::Source(cause) => {
                text.push_str("接收失败: ");
                text.push_str(cause.as_str());
            },
            Error::Sink(cause) => {
                text.push_str("入库失败: ");
                text.push_str(cause.as_str());
            },
            Error::IoContext(context, cause) => {
                text.push_str(context.as_str());
                text.push_str(": ");
                text.push_str(cause.as_str());
            },
            Error::Io(cause) | Error::Json(cause) | Error::Other(cause) => {
                text.push_str(cause.as_str());
            },
        }
        assert(text@ =~= failure_text(self@));
        text
    }
}

} // verus!
