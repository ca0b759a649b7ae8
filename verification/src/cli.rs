//! The command line.

use vstd::prelude::*;

use crate::error::{failure_text, Error};
use crate::text::{chars_of, same, texts};

verus! {

/// The configuration that is read where none is named.
pub const DEFAULT_CONFIG: &'static str = "tracepipe.yaml";

pub const USAGE: &'static str = "tracepipe —— OTLP trace 采集入库\n\n用法:\n    tracepipe [配置文件]           启动采集（默认 ./tracepipe.yaml）\n    tracepipe --check [配置文件]   只校验配置，不启动\n    tracepipe --ddl   [配置文件]   打印 ClickHouse 建表语句\n    tracepipe --help\n\n日志级别用 RUST_LOG 控制，例如 RUST_LOG=debug。\n";

/// What is to be done.
#[derive(Debug, PartialEq, Eq)]
pub enum Command {
    /// Run with the configuration at a path.
    Run(String),
    /// Check the configuration at a path.
    Check(String),
    /// Print the statements that create the table for the configuration at a path.
    Ddl(String),
    Help,
    /// The argument is not known.
    Unknown(String),
}

/// What a [`Command`] stands for.
pub ghost enum CommandModel {
    Run(Seq<char>),
    Check(Seq<char>),
    Ddl(Seq<char>),
    Help,
    Unknown(Seq<char>),
}

impl Command {
    pub open spec fn view(&self) -> CommandModel {
        match self {
            Command::Run(path) => CommandModel::Run(path@),
            Command::Check(path) => CommandModel::Check(path@),
            Command::Ddl(path) => CommandModel::Ddl(path@),
            Command::Help => CommandModel::Help,
            Command::Unknown(argument) => CommandModel::Unknown(argument@),
        }
    }
}

/// The path after an option; the usual one where there is none.
pub open spec fn path_after(args: Seq<Seq<char>>) -> Seq<char> {
    if args.len() > 1 {
        args[1]
    } else {
        DEFAULT_CONFIG@
    }
}

/// What the arguments ask for. An argument that is no option is the path of a configuration.
pub open spec fn command_of(args: Seq<Seq<char>>) -> CommandModel {
    if args.len() == 0 {
        CommandModel::Run(DEFAULT_CONFIG@)
    } else {
        let first = args[0];
        if first == "--help"@ || first == "-h"@ {
            CommandModel::Help
        } else if first == "--check"@ {
            CommandModel::Check(path_after(args))
        } else if first == "--ddl"@ {
            CommandModel::Ddl(path_after(args))
        } else if first.len() > 0 && first[0] == '-' {
            CommandModel::Unknown(first)
        } else {
            CommandModel::Run(first)
        }
    }
}

/// What the arguments ask for.
pub fn parse_args(args: &Vec<String>) -> (r: Command)
    ensures
        r@ == command_of(texts(args@)),
{
    if args.len() == 0 {
        return Command::Run(DEFAULT_CONFIG.to_owned());
    }
    let first = args[0].as_str();
    assert(texts(args@)[0] == first@);
    let path = if args.len() > 1 {
        assert(texts(args@)[1] == args@[1]@);
        args[1].clone()
    } else {
        DEFAULT_CONFIG.to_owned()
    };
    if same(first, "--help") || same(first, "-h") {
        Command::Help
    } else if same(first, "--check") {
        Command::Check(path)
    } else if same(first, "--ddl") {
        Command::Ddl(path)
    } else {
        let chars = chars_of(first);
        if chars.len() > 0 && chars[0] == '-' {
            Command::Unknown(args[0].clone())
        } else {
            Command::Run(args[0].clone())
        }
    }
}

/// What is said about an argument that is not known.
pub fn unknown_argument(argument: &str) -> (r: String)
    ensures
        r@ == "未知参数 "@ + argument@ + "\n\n"@ + USAGE@,
{
    let mut text = "未知参数 ".to_owned();
    text.push_str(argument);
    text.push_str("\n\n");
    text.push_str(USAGE);
    text
}

/// What is said about a configuration that is in order.
pub fn checked(path: &str) -> (r: String)
    ensures
        r@ == "配置 "@ + path@ + " 校验通过\n"@,
{
    let mut text = "配置 ".to_owned();
    text.push_str(path);
    text.push_str(" 校验通过\n");
    text
}

/// The statements, ready to be run.
pub fn statements(ddl: String) -> (r: String)
    ensures
        r@ == ddl@ + ";\n"@,
{
    let mut text = ddl;
    text.push_str(";\n");
    text
}

/// What is said about an error.
pub fn failed(error: &Error) -> (r: String)
    ensures
        r@ == "错误: "@ + failure_text(error@) + "\n"@,
{
    let mut text = "错误: ".to_owned();
    text.push_str(error.message().as_str());
    text.push_str("\n");
    text
}

} // verus!
