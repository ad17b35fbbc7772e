use kgdb_console_splitting_proxy::cli::{
    parse_cli, parse_port_number, parse_remote_endpoint, CliArgs, CliExit,
};

fn run(args: &[&str], default_device_exists: bool) -> Result<CliArgs, CliExit> {
    let mut all: Vec<String> = vec!["kgdb-console-splitting-proxy".to_string()];
    for arg in args {
        all.push(arg.to_string());
    }
    parse_cli(&all, default_device_exists)
}

fn accepted(args: &[&str]) -> CliArgs {
    match run(args, false) {
        Ok(parsed) => parsed,
        Err(_) => panic!("command line refused: {args:?}"),
    }
}

fn usage_message(args: &[&str]) -> Option<String> {
    match run(args, false) {
        Err(CliExit::Usage(message)) => message,
        _ => panic!("no usage error: {args:?}"),
    }
}

fn hint_message(args: &[&str]) -> String {
    match run(args, false) {
        Err(CliExit::TryHelp(message)) => message,
        _ => panic!("no hint at the help: {args:?}"),
    }
}

#[test]
fn long_boolean_flag_rejects_inline_value() {
    let message = usage_message(&["--verbose=false", "--version"]).unwrap();
    assert!(
        message.contains("Option --verbose does not take a value"),
        "unexpected message: {message}",
    );
}

#[test]
fn every_long_flag_rejects_inline_value() {
    for flag in [
        "--help",
        "--version",
        "--verbose",
        "--log-chars",
        "--daemon",
        "--no-break-on-connect",
        "--no-gdb-filter",
        "--telnet",
        "--telnet-negotiation",
    ] {
        let arg = format!("{flag}=1");
        assert_eq!(
            usage_message(&[arg.as_str()]).unwrap(),
            format!("Option {flag} does not take a value"),
        );
    }
}

#[test]
fn serial_split_without_device_reports_missing_default_when_ttyusb0_absent() {
    let message = hint_message(&["serial-split"]);
    assert!(
        message.contains(
            "serial-split requires explicit --device because default device /dev/ttyUSB0 does not exist"
        ),
        "unexpected message: {message}",
    );
}

#[test]
fn serial_split_defaults() {
    let parsed = match run(&["serial-split"], true) {
        Ok(parsed) => parsed,
        Err(_) => panic!("defaults refused"),
    };
    assert_eq!(parsed.proxy_args, ["4440^4441", "0", "/dev/ttyUSB0,115200"]);
    assert_eq!(parsed.pidfile, None);
    assert!(!parsed.do_fork);
    assert!(!parsed.settings.debug);
    assert!(!parsed.settings.logchar);
    assert!(parsed.settings.break_on_connect);
    assert!(parsed.settings.gdb_split);
    assert!(!parsed.settings.telnet_negotiation);
    assert_eq!(parsed.settings.break_str, [0xff, 0xf3, b'g']);
}

#[test]
fn serial_split_options() {
    let parsed = accepted(&[
        "serial-split",
        "--device",
        "/dev/ttyS0",
        "--baud=9600",
        "--console-port",
        "0x10",
        "--kgdb-port=07000",
        "--telnet",
    ]);
    assert_eq!(parsed.proxy_args, ["16^7000", "0", "/dev/ttyS0,9600"]);
    assert!(parsed.settings.telnet_negotiation);
}

#[test]
fn serial_options_imply_the_subcommand() {
    let parsed = accepted(&["--device=/dev/ttyACM0"]);
    assert_eq!(parsed.proxy_args, ["4440^4441", "0", "/dev/ttyACM0,115200"]);
}

#[test]
fn serial_split_takes_no_endpoints() {
    let message = "serial-split uses --device, --console-port, and --gdb-port";
    assert_eq!(usage_message(&["serial-split", "4440"]).unwrap(), message);
    assert_eq!(usage_message(&["serial-split", "--local", "1"]).unwrap(), message);
    assert_eq!(usage_message(&["serial-split", "--remote=x"]).unwrap(), message);
    assert_eq!(usage_message(&["serial-split", "--remote-host=x"]).unwrap(), message);
}

#[test]
fn bad_ports_fail() {
    match run(&["serial-split", "--device=/d", "--console-port=65536"], false) {
        Err(CliExit::Fail(message)) => assert_eq!(message, "Invalid port number: 65536"),
        _ => panic!("console port accepted"),
    }
    match run(&["serial-split", "--device=/d", "--gdb-port=0xg"], false) {
        Err(CliExit::Fail(message)) => assert_eq!(message, "Invalid port number: 0xg"),
        _ => panic!("debugger port accepted"),
    }
}

#[test]
fn port_numbers() {
    assert!(matches!(parse_port_number("0"), Ok(0)));
    assert!(matches!(parse_port_number("+80"), Ok(80)));
    assert!(matches!(parse_port_number("65535"), Ok(65535)));
    assert!(matches!(parse_port_number("0xFfFf"), Ok(65535)));
    for bad in ["", "+", "-1", "65536", "0x", "0x10000", "0X10", " 1", "1 ", "1x"] {
        match parse_port_number(bad) {
            Err(CliExit::Fail(message)) => {
                assert_eq!(message, format!("Invalid port number: {bad}"))
            }
            _ => panic!("accepted {bad:?}"),
        }
    }
}

#[test]
fn proxy_subcommand() {
    let parsed = accepted(&["proxy", "--local", "5550", "--remote", "tcp:10.0.0.2:2004"]);
    assert_eq!(parsed.proxy_args, ["5550", "10.0.0.2", "2004"]);
    let parsed = accepted(&["--remote=udp:10.0.0.2:6443", "--local=udp:3331"]);
    assert_eq!(parsed.proxy_args, ["udp:3331", "10.0.0.2", "udp:6443"]);
    let parsed = accepted(&["proxy", "--local=1", "--remote=2004", "--remote-host=box"]);
    assert_eq!(parsed.proxy_args, ["1", "box", "2004"]);
}

#[test]
fn proxy_subcommand_errors() {
    assert_eq!(
        hint_message(&["proxy", "5550"]),
        "proxy mode uses --local and --remote, not positional endpoints",
    );
    assert_eq!(hint_message(&["proxy", "--remote=tcp:a:1"]), "proxy mode requires --local");
    assert_eq!(hint_message(&["proxy", "--local=1"]), "proxy mode requires --remote");
    assert_eq!(hint_message(&["--remote-host=a"]), "proxy mode requires --local");
}

fn endpoint(remote: &str) -> (String, String) {
    match parse_remote_endpoint(remote, None) {
        Ok(parts) => parts,
        Err(_) => panic!("refused {remote}"),
    }
}

fn endpoint_error(remote: &str) -> String {
    match parse_remote_endpoint(remote, None) {
        Err(CliExit::Usage(Some(message))) => message,
        _ => panic!("accepted {remote}"),
    }
}

fn pair(a: &str, b: &str) -> (String, String) {
    (a.to_string(), b.to_string())
}

#[test]
fn remote_endpoint_forms() {
    assert_eq!(endpoint("tcp:host:2004"), pair("host", "2004"));
    assert_eq!(endpoint("tcp://host:2004"), pair("host", "2004"));
    assert_eq!(endpoint("udp:host:1:2"), pair("host", "udp:1:2"));
    assert_eq!(endpoint("udp://host:2"), pair("host", "udp:2"));
    assert_eq!(endpoint("serial:/dev/ttyS0,9600"), pair("0", "/dev/ttyS0,9600"));
    assert_eq!(endpoint("tcplisten:0.0.0.0:9"), pair("0.0.0.0", "tcplisten:9"));
    assert_eq!(endpoint("fifocon:/tmp/f"), pair("0", "fifocon:/tmp/f"));
    match parse_remote_endpoint("anything", Some("host")) {
        Ok(parts) => assert_eq!(parts, pair("host", "anything")),
        Err(_) => panic!("remote host refused"),
    }
}

#[test]
fn remote_endpoint_errors() {
    assert_eq!(
        endpoint_error("tcp:host"),
        "TCP remote endpoint must include host and port: host",
    );
    assert_eq!(
        endpoint_error("udp::5"),
        "UDP remote endpoint must include non-empty host and port: :5",
    );
    assert_eq!(
        endpoint_error("tcplisten:0.0.0.0:"),
        "tcplisten remote endpoint must include non-empty host and port: 0.0.0.0:",
    );
    assert_eq!(
        endpoint_error("serial:"),
        "serial remote endpoint must include a device path",
    );
    assert_eq!(endpoint_error("fifocon:"), "fifocon remote endpoint must include a path");
    assert_eq!(
        endpoint_error("/dev/ttyS0"),
        "Remote endpoint must start with tcp:, udp:, serial:, tcplisten:, or fifocon:",
    );
}

#[test]
fn positional_form() {
    let parsed = accepted(&["2223^2222", "0", "/dev/ttyS0,115200"]);
    assert_eq!(parsed.proxy_args, ["2223^2222", "0", "/dev/ttyS0,115200"]);
    assert_eq!(usage_message(&[]), None);
    assert_eq!(usage_message(&["1", "2"]), None);
    assert_eq!(usage_message(&["1", "2", "3", "4"]), None);
}

#[test]
fn positional_after_double_dash() {
    let parsed = accepted(&["-v", "--", "-a", "--help", "proxy"]);
    assert_eq!(parsed.proxy_args, ["-a", "--help", "proxy"]);
    assert!(parsed.settings.debug);
}

#[test]
fn second_subcommand_word_is_positional() {
    assert_eq!(
        hint_message(&["proxy", "serial-split", "--local=1", "--remote=tcp:a:1"]),
        "proxy mode uses --local and --remote, not positional endpoints",
    );
}

#[test]
fn help_and_version() {
    assert!(matches!(run(&["--help"], false), Err(CliExit::Help)));
    assert!(matches!(run(&["-h"], false), Err(CliExit::Help)));
    assert!(matches!(run(&["-vh", "--bogus"], false), Err(CliExit::Help)));
    assert!(matches!(run(&["--version"], false), Err(CliExit::Version)));
}

#[test]
fn long_flags() {
    let parsed = accepted(&[
        "--verbose",
        "--log-chars",
        "--daemon",
        "--no-break-on-connect",
        "--no-gdb-filter",
        "--telnet-negotiation",
        "--pid-file=/run/p",
        "--break-byte=7",
        "a",
        "b",
        "c",
    ]);
    assert!(parsed.settings.debug);
    assert!(parsed.settings.logchar);
    assert!(parsed.do_fork);
    assert!(!parsed.settings.break_on_connect);
    assert!(!parsed.settings.gdb_split);
    assert!(parsed.settings.telnet_negotiation);
    assert_eq!(parsed.pidfile, Some("/run/p".to_string()));
    assert_eq!(parsed.settings.break_str, [7]);
}

#[test]
fn short_options() {
    let parsed = accepted(&["-dvDGB", "-f", "pid", "-s", "255", "a", "b", "c"]);
    assert!(parsed.settings.logchar);
    assert!(parsed.settings.debug);
    assert!(parsed.do_fork);
    assert!(!parsed.settings.gdb_split);
    assert!(!parsed.settings.break_on_connect);
    assert_eq!(parsed.pidfile, Some("pid".to_string()));
    assert_eq!(parsed.settings.break_str, [255]);
    let parsed = accepted(&["-vs65", "a", "b", "c"]);
    assert_eq!(parsed.settings.break_str, [65]);
    let parsed = accepted(&["-fs", "pid", "9", "a", "b", "c"]);
    assert_eq!(parsed.pidfile, Some("pid".to_string()));
    assert_eq!(parsed.settings.break_str, [9]);
}

#[test]
fn option_errors() {
    assert_eq!(usage_message(&["--bogus=1"]).unwrap(), "Option --bogus not recognized");
    assert_eq!(usage_message(&["-vx"]).unwrap(), "Option -x not recognized");
    assert_eq!(usage_message(&["--local"]).unwrap(), "No argument specified for --local");
    assert_eq!(usage_message(&["-f"]).unwrap(), "No argument specified for -f");
    assert_eq!(usage_message(&["-s"]).unwrap(), "No argument specified for -s");
    assert_eq!(usage_message(&["-s256"]).unwrap(), "Invalid break byte: 256");
    assert_eq!(usage_message(&["--break-byte", "g"]).unwrap(), "Invalid break byte: g");
}

#[test]
fn values_in_both_forms_are_read_alike() {
    for (joined, apart) in [
        (vec!["--break-byte=7", "a", "b", "c"], vec!["--break-byte", "7", "a", "b", "c"]),
        (vec!["--pid-file=p=q", "a", "b", "c"], vec!["--pid-file", "p=q", "a", "b", "c"]),
        (
            vec!["--local=1", "--remote=serial:/dev/x", "-v"],
            vec!["--local", "1", "--remote", "serial:/dev/x", "-v"],
        ),
    ] {
        let (joined, apart) = (accepted(&joined), accepted(&apart));
        assert_eq!(joined.proxy_args, apart.proxy_args);
        assert_eq!(joined.pidfile, apart.pidfile);
        assert_eq!(joined.settings.break_str, apart.settings.break_str);
        assert_eq!(joined.settings.debug, apart.settings.debug);
    }
}
