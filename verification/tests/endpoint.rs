use kgdb_console_splitting_proxy::cli::CliExit;
use kgdb_console_splitting_proxy::endpoint::{
    bind_address, local_kind, parse_ipv4, parse_local_port, remote_kind, resolve_host, serial_baud,
    LocalKind, RemoteKind,
};
use kgdb_console_splitting_proxy::plan::{
    plan_local_port, plan_remote_port, RemoteMade, SetupStep,
};
use kgdb_console_splitting_proxy::port::PortType;

#[test]
fn ipv4_addresses() {
    assert_eq!(parse_ipv4("10.0.0.2"), Some(0x0a000002));
    assert_eq!(parse_ipv4("255.255.255.255"), Some(u32::MAX));
    assert_eq!(parse_ipv4("0.0.0.0"), Some(0));
    for bad in [
        "", "1", "1.2.3", "1.2.3.4.5", "1.2.3.", ".1.2.3", "1..2.3", "256.1.1.1", "01.2.3.4",
        "1.2.3.04", "1.2.3.+4", "1.2.3.4 ", "1.2.3.1000", "a.b.c.d",
    ] {
        assert_eq!(parse_ipv4(bad), None, "accepted {bad:?}");
    }
}

#[test]
fn known_hosts() {
    assert_eq!(resolve_host("0"), Some(0));
    assert_eq!(resolve_host("0.0.0.0"), Some(0));
    assert_eq!(resolve_host("localhost"), Some(0x7f000001));
    assert_eq!(resolve_host("127.0.0.1"), Some(0x7f000001));
    assert_eq!(resolve_host("47.1.1.3"), Some(0x2f010103));
    assert_eq!(resolve_host("example"), None);
}

#[test]
fn local_endpoints_with_script_ports() {
    let parts = parse_local_port("4440^4441");
    assert_eq!(parts.main, "4440");
    assert_eq!(parts.script, Some("4441".to_string()));
    assert!(parts.break_port);
    let parts = parse_local_port("udp:1^2+3");
    assert_eq!(parts.main, "udp:1^2");
    assert_eq!(parts.script, Some("3".to_string()));
    assert!(!parts.break_port);
    let parts = parse_local_port("stdin");
    assert_eq!(parts.main, "stdin");
    assert_eq!(parts.script, None);
    assert!(!parts.break_port);
}

#[test]
fn local_port_kinds() {
    assert!(matches!(local_kind("stdin"), LocalKind::Stdin));
    match local_kind("udp:10.0.0.1:7") {
        LocalKind::Udp(rest) => assert_eq!(rest, "10.0.0.1:7"),
        _ => panic!("no datagram port"),
    }
    match local_kind("stdin2") {
        LocalKind::Tcp(rest) => assert_eq!(rest, "stdin2"),
        _ => panic!("no stream port"),
    }
}

#[test]
fn bind_addresses() {
    let bind = bind_address("5550").unwrap_or_else(|e| panic!("{e}"));
    assert_eq!((bind.ip, bind.port.as_str()), (0x7f000001, "5550"));
    let bind = bind_address("47.1.1.3:44444").unwrap_or_else(|e| panic!("{e}"));
    assert_eq!((bind.ip, bind.port.as_str()), (0x2f010103, "44444"));
    match bind_address("localhost:1") {
        Err(message) => {
            assert_eq!(message, "Invalid bind address: invalid IPv4 address syntax")
        }
        Ok(_) => panic!("name accepted"),
    }
}

#[test]
fn remote_kinds() {
    match remote_kind("udp:6443") {
        RemoteKind::Udp { src, port } => assert_eq!((src, port.as_str()), (None, "6443")),
        _ => panic!("no datagram remote"),
    }
    match remote_kind("udp:1:2") {
        RemoteKind::Udp { src, port } => {
            assert_eq!((src, port.as_str()), (Some("1".to_string()), "2"))
        }
        _ => panic!("no datagram remote"),
    }
    match remote_kind("tcplisten:9") {
        RemoteKind::Listen { port } => assert_eq!(port, "9"),
        _ => panic!("no listening remote"),
    }
    match remote_kind("fifocon:/tmp/f") {
        RemoteKind::FifoCon { path } => assert_eq!(path, "/tmp/f"),
        _ => panic!("no fifo"),
    }
    match remote_kind("/dev/ttyS0,9600") {
        RemoteKind::Serial { path, baud } => {
            assert_eq!((path.as_str(), baud), ("/dev/ttyS0", Some("9600".to_string())))
        }
        _ => panic!("no serial device"),
    }
    match remote_kind("COM1") {
        RemoteKind::Serial { path, baud } => assert_eq!((path.as_str(), baud), ("COM1", None)),
        _ => panic!("no serial device"),
    }
    match remote_kind("2004") {
        RemoteKind::Tcp { port } => assert_eq!(port, "2004"),
        _ => panic!("no stream remote"),
    }
}

#[test]
fn serial_rates() {
    assert_eq!(serial_baud("/dev/x", None), Ok(None));
    assert_eq!(serial_baud("/dev/x", Some("115200")), Ok(Some(115200)));
    assert_eq!(serial_baud("/dev/x", Some("fast")), Err("Invalid baud rate: fast".to_string()));
    assert_eq!(serial_baud("COM1", Some("x")), Err("Unsupported port path: COM1".to_string()));
}

fn names(steps: &[SetupStep]) -> Vec<String> {
    steps
        .iter()
        .map(|step| match step {
            SetupStep::UseStdin => "stdin".to_string(),
            SetupStep::Socket { datagram, error } => format!("socket {datagram} {error}"),
            SetupStep::SocketOptions => "options".to_string(),
            SetupStep::Nonblocking => "nonblocking".to_string(),
            SetupStep::ReuseAddr => "reuse".to_string(),
            SetupStep::Resolve { host } => format!("resolve {host}"),
            SetupStep::Bind { ip, port, error } => format!("bind {ip:?} {port} {error}"),
            SetupStep::Listen { error } => format!("listen {error}"),
            SetupStep::Connect { port } => format!("connect {port}"),
            SetupStep::MakeFifo { path, error } => format!("mkfifo {path} {error}"),
            SetupStep::OpenFifo { path, error } => format!("fifo {path} {error}"),
            SetupStep::OpenSerial { path, baud } => format!("serial {path} {baud:?}"),
            SetupStep::Refuse { error } => format!("refuse {error}"),
            SetupStep::End(CliExit::Fail(error)) => format!("end {error}"),
            SetupStep::End(_) => "end".to_string(),
        })
        .collect()
}

#[test]
fn local_plans() {
    let plan = plan_local_port("stdin");
    assert_eq!((plan.port_type, plan.port_num), (PortType::StdinOut, None));
    assert_eq!(names(&plan.steps), ["stdin", "nonblocking"]);

    let plan = plan_local_port("udp:3331");
    assert_eq!((plan.port_type, plan.port_num), (PortType::Udp, Some(3331)));
    assert_eq!(names(&plan.steps), [
        "socket true Error opening UDP socket",
        "nonblocking",
        "bind Some(2130706433) 3331 Error: on socket bind, address in use",
    ]);

    let plan = plan_local_port("47.1.1.3:0x10");
    assert_eq!((plan.port_type, plan.port_num), (PortType::Tcp, Some(16)));
    assert_eq!(names(&plan.steps), [
        "socket false Error opening TCP socket",
        "options",
        "nonblocking",
        "reuse",
        "bind Some(788594947) 16 Error: on socket bind, address in use",
        "listen Error: on listen()",
    ]);

    let plan = plan_local_port("host:1");
    assert_eq!(
        names(&plan.steps)[3..],
        ["refuse Invalid bind address: invalid IPv4 address syntax"],
    );
    let plan = plan_local_port("port");
    assert_eq!(names(&plan.steps)[3..], ["end Invalid port number: port"]);
}

#[test]
fn remote_plans() {
    let plan = plan_remote_port("box", "2004");
    assert_eq!(names(&plan.steps), ["resolve box"]);
    assert!(matches!(plan.made, RemoteMade::Socket { port_type: PortType::Tcp, port: 2004 }));

    let plan = plan_remote_port("box", "udp:1:2");
    assert_eq!(names(&plan.steps), [
        "socket true Could not allocate socket",
        "nonblocking",
        "bind Some(0) 1 Could not bind remote udp socket",
        "resolve box",
        "connect 2",
    ]);
    assert!(matches!(plan.made, RemoteMade::Socket { port_type: PortType::Udp, port: 2 }));

    let plan = plan_remote_port("0", "tcplisten:9");
    assert_eq!(names(&plan.steps), [
        "socket false Could not allocate socket",
        "reuse",
        "nonblocking",
        "resolve 0",
        "bind None 9 Could not bind remote tcp listen socket",
        "listen Error on listen",
    ]);

    let plan = plan_remote_port("0", "fifocon:/tmp/f");
    assert_eq!(names(&plan.steps), [
        "mkfifo /tmp/f Error creating /tmp/f fifo",
        "fifo /tmp/f Error opening fifo",
    ]);
    assert!(matches!(plan.made, RemoteMade::Fifo { path } if path == "/tmp/f"));

    let plan = plan_remote_port("0", "/dev/ttyS0,9600");
    assert_eq!(names(&plan.steps), ["serial /dev/ttyS0 Some(9600)"]);
    assert!(matches!(plan.made, RemoteMade::Serial { baud: Some(9600), .. }));

    for (text, last) in [
        ("udp:x:2", "end Invalid port number: x"),
        ("udp:1:x", "end Invalid port number: x"),
        ("tcplisten:", "end Invalid port number: "),
        ("70000", "end Invalid port number: 70000"),
        ("COM1,9600", "refuse Unsupported port path: COM1"),
        ("/dev/ttyS0,fast", "refuse Invalid baud rate: fast"),
    ] {
        let plan = plan_remote_port("0", text);
        assert_eq!(names(&plan.steps).last().unwrap(), last);
        assert!(matches!(plan.made, RemoteMade::Nothing));
    }
}
