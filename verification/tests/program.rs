use tracepipe::cli::{
    checked, failed, parse_args, statements, unknown_argument, Command, DEFAULT_CONFIG, USAGE,
};
use tracepipe::error::{Error, IoKind};
use tracepipe::event::SpanEvent;
use tracepipe::sink::console::{ConsoleSink, Encoding, Target};

fn args(list: &[&str]) -> Vec<String> {
    list.iter().map(|arg| (*arg).to_owned()).collect()
}

#[test]
fn arguments_of_the_program() {
    let run = |path: &str| Command::Run(path.to_owned());
    assert_eq!(parse_args(&args(&[])), run(DEFAULT_CONFIG));
    assert_eq!(parse_args(&args(&["x.yaml", "--check"])), run("x.yaml"));
    assert_eq!(parse_args(&args(&[""])), run(""));
    assert_eq!(
        parse_args(&args(&["--check"])),
        Command::Check("tracepipe.yaml".to_owned())
    );
    assert_eq!(
        parse_args(&args(&["--check", "a"])),
        Command::Check("a".to_owned())
    );
    assert_eq!(
        parse_args(&args(&["--ddl", "a", "b"])),
        Command::Ddl("a".to_owned())
    );
    assert_eq!(parse_args(&args(&["--help"])), Command::Help);
    assert_eq!(parse_args(&args(&["-h"])), Command::Help);
    assert_eq!(
        parse_args(&args(&["--helpp"])),
        Command::Unknown("--helpp".to_owned())
    );
}

#[test]
fn what_the_program_says() {
    assert!(USAGE.starts_with("tracepipe —— OTLP trace 采集入库\n\n用法:\n    tracepipe [配置文件]"));
    assert!(USAGE.ends_with("RUST_LOG=debug。\n"));
    assert_eq!(unknown_argument("-x"), format!("未知参数 -x\n\n{USAGE}"));
    assert_eq!(checked("a.yaml"), "配置 a.yaml 校验通过\n");
    assert_eq!(statements("SELECT 1".to_owned()), "SELECT 1;\n");
    assert_eq!(failed(&Error::config("x")), "错误: 配置错误: x\n");
}

#[test]
fn texts_of_errors() {
    assert_eq!(Error::config("x").message(), "配置错误: x");
    assert_eq!(Error::source("x").message(), "接收失败: x");
    assert_eq!(Error::sink("x").message(), "入库失败: x");
    assert_eq!(Error::other("x").message(), "x");
    assert_eq!(Error::Json("x".to_owned()).message(), "x");
    assert_eq!(Error::Io("x".to_owned()).message(), "x");
    let io = |kind| Error::io("监听", std::io::Error::from(kind)).message();
    assert!(io(std::io::ErrorKind::PermissionDenied).contains("CAP_NET_BIND_SERVICE）: "));
    assert!(io(std::io::ErrorKind::AddrInUse).starts_with("监听（端口被占用；"));
    assert_eq!(
        Error::io("监听", std::io::Error::other("why")).message(),
        "监听: why"
    );
    assert_eq!(
        Error::io_context("c", IoKind::Other, "why"),
        Error::IoContext("c".to_owned(), "why".to_owned())
    );
}

#[test]
fn spans_on_the_console() {
    let sink = ConsoleSink::default();
    assert_eq!(sink.encoding, Encoding::Json);
    assert_eq!(sink.target, Target::Stdout);
    assert_eq!(sink.stderr().target, Target::Stderr);
    let events = [SpanEvent::default(), SpanEvent::default()];
    let millis = args(&["0.000", "1.000"]);
    let row = SpanEvent::default().to_json_line().unwrap();
    assert_eq!(sink.render(&events, &millis), format!("{row}\n{row}\n"));
    let text = ConsoleSink::new(Encoding::Text).render(&events, &millis);
    assert_eq!(
        text,
        format!(
            "{}\n{}\n",
            events[0].to_text_line("0.000"),
            events[1].to_text_line("1.000")
        )
    );
    assert_eq!(sink.render(&[], &Vec::new()), "");
}
