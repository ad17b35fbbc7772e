use kgdb_console_splitting_proxy::port::{PortClass, PortId, PortType};
use kgdb_console_splitting_proxy::receive::ReadKind;
use kgdb_console_splitting_proxy::round::{Action, Round};
use kgdb_console_splitting_proxy::setup::RuntimeConfig;
use kgdb_console_splitting_proxy::state::{Effect, ProxyState, Settings};
use kgdb_console_splitting_proxy::telnet::{BreakJob, BreakStep};
use kgdb_console_splitting_proxy::write::{SendReply, WriteJob, WriteStep};
use nix::errno::Errno;

const TELNET_STARTUP: [u8; 15] = [
    0xff, 0xfb, 0x01, 0xff, 0xfb, 0x03, 0xff, 0xfd, 0x03, 0xff, 0xfb, 0x00, 0xff, 0xfd, 0x00,
];

/// A splitter whose descriptors keep what is written to them.
struct Bench {
    state: ProxyState,
    local: PortId,
    script: PortId,
    serial: PortId,
    now: u64,
    next_fd: i32,
    written: Vec<(i32, Vec<u8>)>,
    line_breaks: usize,
    broken: Vec<i32>,
}

impl Bench {
    fn new(settings: Settings) -> Bench {
        let mut state = ProxyState::new(settings);
        let local = state.setup_local_port(PortType::Tcp, false, 3);
        state.set_port_num(local, 4440);
        state.watch_port(local);
        let script = state.setup_local_port(PortType::Tcp, true, 4);
        state.set_port_num(script, 4441);
        state.add_script(local, script, true);
        let serial = state.setup_serial_remote("/dev/ttyUSB0", 5, Some(115200), 0);
        state.join(local, serial);
        Bench {
            state,
            local,
            script,
            serial,
            now: 100,
            next_fd: 6,
            written: Vec::new(),
            line_breaks: 0,
            broken: Vec::new(),
        }
    }

    fn write(&mut self, mut job: WriteJob) -> Option<usize> {
        let mut step = self.state.tracked_port_write(&job);
        loop {
            match step {
                WriteStep::Done(result) => return result,
                WriteStep::Send(request) => {
                    let reply = if self.broken.contains(&request.sock) {
                        SendReply { got: -1, errno: Errno::EPIPE }
                    } else {
                        let got = request.bytes.len() as isize;
                        self.written.push((request.sock, request.bytes));
                        SendReply { got, errno: Errno::UnknownErrno }
                    };
                    step = self.state.write_reply(&mut job, reply);
                }
            }
        }
    }

    fn send_break(&mut self, mut job: BreakJob) {
        loop {
            match self.state.send_special_break(&mut job) {
                BreakStep::Done => return,
                BreakStep::SerialBreak(_) => self.line_breaks += 1,
                BreakStep::Write(byte) => {
                    let to = job.to;
                    let result =
                        self.write(WriteJob { port: to, data: vec![byte], oob: false, written: 0 });
                    job.wrote(result);
                }
            }
        }
    }

    fn carry_out(&mut self, mut round: Round) -> bool {
        loop {
            match round.step(&mut self.state, self.now) {
                Action::Finished(stop) => return stop,
                Action::Next => {}
                Action::Break(job) => self.send_break(job),
                Action::Write(job) => {
                    let result = self.write(job);
                    round.wrote(&mut self.state, result, self.now);
                }
            }
        }
    }

    fn connect_console(&mut self) -> (PortId, i32) {
        let fd = self.next_fd;
        self.next_fd += 1;
        let id = self.state.next_id;
        let round = self.state.handle_local_accept(self.local, fd, None);
        assert!(!self.carry_out(round));
        (id, fd)
    }

    fn connect_gdb(&mut self) -> (PortId, i32) {
        let fd = self.next_fd;
        self.next_fd += 1;
        let id = self.state.next_id;
        let round = self.state.handle_script_port_read(self.script, fd);
        assert!(!self.carry_out(round));
        (id, fd)
    }

    fn serial_sends(&mut self, data: &[u8]) -> bool {
        let round =
            self.state.handle_remote_port_read(self.serial, data.to_vec(), None, self.now);
        self.carry_out(round)
    }

    fn console_sends(&mut self, id: PortId, data: &[u8]) -> bool {
        let round = self.state.handle_remote_port_read(id, data.to_vec(), None, self.now);
        self.carry_out(round)
    }

    fn gdb_sends(&mut self, id: PortId, data: &[u8]) -> bool {
        let round = self.state.handle_script_client_read(id, data.to_vec(), self.now);
        self.carry_out(round)
    }

    fn written_to(&self, fd: i32) -> Vec<u8> {
        let mut all = Vec::new();
        for (to, bytes) in &self.written {
            if *to == fd {
                all.extend_from_slice(bytes);
            }
        }
        all
    }

    fn forget(&mut self) {
        self.written.clear();
        self.line_breaks = 0;
    }
}

#[test]
fn serial_debug_splitter_forwards_console_and_gdb_traffic() {
    let mut bench = Bench::new(Settings::new());
    let (_, console_fd) = bench.connect_console();
    let (gdb, gdb_fd) = bench.connect_gdb();
    bench.forget();

    assert!(!bench.serial_sends(b"boot log\n$T05#b9"));

    assert_eq!(bench.written_to(console_fd), b"boot log\n");
    assert_eq!(bench.written_to(gdb_fd), b"$T05#b9");

    assert!(!bench.gdb_sends(gdb, b"q"));
    assert_eq!(bench.written_to(5), b"q");
}

#[test]
fn packets_are_kept_from_the_console() {
    let mut bench = Bench::new(Settings::new());
    let (console, console_fd) = bench.connect_console();
    let (_, gdb_fd) = bench.connect_gdb();
    bench.forget();
    bench.serial_sends(b"$T05#b9");
    assert_eq!(bench.written_to(console_fd), b"");
    assert_eq!(bench.written_to(gdb_fd), b"$T05#b9");
    assert!(bench.state.has(console));

    bench.forget();
    bench.serial_sends(b"one$T");
    bench.serial_sends(b"05#b");
    bench.serial_sends(b"9two + three");
    assert_eq!(bench.written_to(console_fd), b"onetwo + three");
    assert_eq!(bench.written_to(gdb_fd), b"$T05#b9+");

    let mut settings = Settings::new();
    settings.gdb_split = false;
    let mut bench = Bench::new(settings);
    let (_, console_fd) = bench.connect_console();
    bench.serial_sends(b"log$T05#b9");
    assert_eq!(bench.written_to(console_fd), b"log$T05#b9");
}

#[test]
fn what_turns_out_to_be_no_packet_goes_to_the_console() {
    let mut bench = Bench::new(Settings::new());
    let (_, console_fd) = bench.connect_console();
    let (_, gdb_fd) = bench.connect_gdb();
    bench.forget();
    bench.serial_sends(b"log$");
    assert_eq!(bench.written_to(console_fd), b"log");
    let text = vec![b'x'; 8192];
    bench.serial_sends(&text);
    let mut expected = b"log$".to_vec();
    expected.extend_from_slice(&text);
    assert_eq!(bench.written_to(console_fd), expected);
    assert_eq!(bench.written_to(gdb_fd), b"");
    bench.serial_sends(b"more$T05#b9");
    expected.extend_from_slice(b"more");
    assert_eq!(bench.written_to(console_fd), expected);
    assert_eq!(bench.written_to(gdb_fd), b"$T05#b9");
}

#[test]
fn what_was_passed_on_does_not_come_back() {
    let mut bench = Bench::new(Settings::new());
    let (_, console_fd) = bench.connect_console();
    let (_, gdb_fd) = bench.connect_gdb();
    bench.forget();
    bench.serial_sends(b"$T05#b9$T");
    assert_eq!(bench.written_to(gdb_fd), b"$T05#b9$T");
    let text = vec![b'x'; 8192];
    bench.serial_sends(&text);
    assert_eq!(bench.written_to(console_fd), b"");
    bench.serial_sends(b"y");
    assert_eq!(bench.written_to(console_fd).len(), 8193);
}

#[test]
fn packets_stay_on_the_console_of_a_plain_script_port() {
    let mut bench = Bench::new(Settings::new());
    bench.state.add_script(bench.local, bench.script, false);
    let (_, console_fd) = bench.connect_console();
    bench.serial_sends(b"log$T05#b9");
    assert_eq!(bench.written_to(console_fd), b"log$T05#b9");
}

#[test]
fn what_a_console_sends_is_not_split() {
    let mut bench = Bench::new(Settings::new());
    let (console, _) = bench.connect_console();
    bench.console_sends(console, b"a$g#67b");
    assert_eq!(bench.written_to(5), b"a$g#67b");
}

#[test]
fn serial_debug_splitter_gdb_port_works_without_console_client() {
    let mut bench = Bench::new(Settings::new());
    let (_, gdb_fd) = bench.connect_gdb();
    bench.forget();
    bench.serial_sends(b"$T05#b9");
    assert_eq!(bench.written_to(gdb_fd), b"$T05#b9");
}

#[test]
fn serial_debug_splitter_gdb_port_survives_console_disconnect() {
    let mut bench = Bench::new(Settings::new());
    let (console, console_fd) = bench.connect_console();
    let (gdb, gdb_fd) = bench.connect_gdb();
    bench.forget();

    assert!(bench.console_sends(console, b""));
    assert!(!bench.state.has(console));
    assert!(bench.state.ports.get(bench.serial).unwrap().clients.is_empty());
    assert_eq!(
        bench.state.take_effects(),
        [Effect::Shutdown(console_fd), Effect::Close(console_fd)],
    );
    assert!(!bench.state.master_rds.contains(console_fd));

    bench.gdb_sends(gdb, b"q");
    assert_eq!(bench.written_to(5), b"q");
    bench.serial_sends(b"$T05#b9");
    assert_eq!(bench.written_to(gdb_fd), b"$T05#b9");
}

#[test]
fn serial_debug_splitter_forwards_fragmented_gdb_packets() {
    let mut bench = Bench::new(Settings::new());
    let (_, gdb_fd) = bench.connect_gdb();
    bench.forget();
    bench.serial_sends(b"$T");
    assert_eq!(bench.written_to(gdb_fd), b"");
    bench.serial_sends(b"05#b9");
    assert_eq!(bench.written_to(gdb_fd), b"$T05#b9");
}

#[test]
fn serial_debug_splitter_gdb_port_is_raw_tcp() {
    let mut bench = Bench::new(Settings::new());
    let (gdb, gdb_fd) = bench.connect_gdb();
    assert_eq!(bench.written_to(gdb_fd), b"");
    bench.forget();
    bench.gdb_sends(gdb, &[0xff, 0xf3, b'X']);
    assert_eq!(bench.written_to(5), [0xff, 0xf3, b'X']);
    assert_eq!(bench.line_breaks, 0);
}

#[test]
fn every_debugger_byte_is_raw() {
    let mut bench = Bench::new(Settings::new());
    let (gdb, _) = bench.connect_gdb();
    bench.forget();
    bench.gdb_sends(gdb, &[0x03, 0xff, 0xf3, 0xff, 0xff]);
    bench.gdb_sends(gdb, b"+$qSupported#37");
    let mut expected = vec![0x03, 0xff, 0xf3, 0xff, 0xff];
    expected.extend_from_slice(b"+$qSupported#37");
    assert_eq!(bench.written_to(5), expected);
    assert_eq!(bench.line_breaks, 0);
}

#[test]
fn serial_debug_splitter_broadcasts_console_output_to_multiple_clients() {
    let mut bench = Bench::new(Settings::new());
    let (a, a_fd) = bench.connect_console();
    let (b, b_fd) = bench.connect_console();
    bench.console_sends(a, b"a");
    bench.console_sends(b, b"b");
    assert_eq!(bench.written_to(5), b"ab");
    bench.serial_sends(b"shared log line\n");
    assert_eq!(bench.written_to(a_fd), b"shared log line\n");
    assert_eq!(bench.written_to(b_fd), b"shared log line\n");
}

#[test]
fn a_broken_console_does_not_keep_the_others_from_the_line() {
    let mut bench = Bench::new(Settings::new());
    let (a, a_fd) = bench.connect_console();
    let (b, b_fd) = bench.connect_console();
    let (_, gdb_fd) = bench.connect_gdb();
    bench.forget();
    bench.broken.push(a_fd);
    assert!(!bench.serial_sends(b"log\n$T05#b9"));
    assert_eq!(bench.written_to(b_fd), b"log\n");
    assert_eq!(bench.written_to(gdb_fd), b"$T05#b9");
    assert!(!bench.state.has(a));
    assert!(bench.state.has(b));
    assert_eq!(bench.state.ports.get(bench.serial).unwrap().clients, [b]);
    assert_eq!(bench.state.ports.get(bench.script).unwrap().lscript, Some(b));
}

#[test]
fn a_broken_debugger_is_dropped() {
    let mut bench = Bench::new(Settings::new());
    let (gdb, gdb_fd) = bench.connect_gdb();
    bench.broken.push(gdb_fd);
    assert!(!bench.serial_sends(b"+"));
    assert!(!bench.state.has(gdb));
    assert!(bench.state.ports.get(bench.script).unwrap().clients.is_empty());
    assert!(bench.state.ports.get(bench.script).unwrap().script_in_use);
}

#[test]
fn a_broken_line_is_reopened_later() {
    let mut bench = Bench::new(Settings::new());
    let (console, _) = bench.connect_console();
    bench.broken.push(5);
    assert!(bench.console_sends(console, b"x"));
    assert!(!bench.state.has(console));
    assert_eq!(bench.state.ports.get(bench.serial).unwrap().sock, 5);
    let (gdb, _) = bench.connect_gdb();
    assert!(bench.gdb_sends(gdb, b"x"));
    let serial = bench.state.ports.get(bench.serial).unwrap();
    assert_eq!(serial.sock, -1);
    assert_eq!(serial.serial_reconnect_at, Some(1100));
}

#[test]
fn serial_debug_splitter_console_is_raw_tcp_by_default() {
    let mut bench = Bench::new(Settings::new());
    let (console, console_fd) = bench.connect_console();
    assert_eq!(bench.written_to(console_fd), b"");
    bench.console_sends(console, &[0xff, 0xfb, 0x01, 0x03]);
    assert_eq!(bench.written_to(5), [0xff, 0xfb, 0x01, 0x03]);
}

#[test]
fn serial_debug_splitter_telnet_flag_enables_console_negotiation() {
    let mut settings = Settings::new();
    settings.telnet_negotiation = true;
    let mut bench = Bench::new(settings);
    let (_, console_fd) = bench.connect_console();
    assert_eq!(bench.written_to(console_fd), TELNET_STARTUP);
}

#[test]
fn serial_debug_splitter_telnet_escaped_iac_reaches_serial() {
    let mut settings = Settings::new();
    settings.telnet_negotiation = true;
    let mut bench = Bench::new(settings);
    let (console, _) = bench.connect_console();
    bench.forget();
    bench.console_sends(console, &[0xff, 0xff, b'X']);
    assert_eq!(bench.written_to(5), [0xff, b'X']);
}

#[test]
fn telnet_commands_may_be_cut_into_reads() {
    let mut settings = Settings::new();
    settings.telnet_negotiation = true;
    let mut bench = Bench::new(settings);
    let (console, _) = bench.connect_console();
    bench.forget();
    bench.console_sends(console, &[b'A', 0xff, 0xff, b'B']);
    assert_eq!(bench.written_to(5), [b'A', 0xff, b'B']);
    bench.console_sends(console, &[0xff]);
    bench.console_sends(console, &[0xff, b'C', 0xff, 0xfb, 0x01, b'D']);
    assert_eq!(bench.written_to(5), [b'A', 0xff, b'B', 0xff, b'C', b'D']);
    assert_eq!(bench.line_breaks, 0);
    bench.console_sends(console, &[0xff, 0xf3]);
    assert_eq!(bench.line_breaks, 1);
}

#[test]
fn serial_debug_splitter_prints_status_with_clients_and_traffic() {
    let mut bench = Bench::new(Settings::new());
    let config = RuntimeConfig::from_state(&bench.state, "/dev/ttyUSB0,115200");
    let first = bench.state.print_runtime_status(&config).unwrap();
    assert!(first.contains("0 connected clients"));
    assert!(!first.contains("clients\x1b[0m  none"));
    bench.connect_console();
    let (gdb, _) = bench.connect_gdb();
    bench.serial_sends(b"boot log\n$T05#b9");
    bench.gdb_sends(gdb, b"q");
    let stdout = bench.state.print_runtime_status(&config).unwrap();

    assert!(stdout.contains("kgdb-console-splitting-proxy v0.0.1"));
    assert!(stdout.contains("serial-split"), "missing mode in status output: {stdout}");
    assert!(stdout.contains("115200 baud"));
    assert!(stdout.contains("\x1b[33m/dev/ttyUSB0\x1b[0m"));
    assert!(stdout.contains("fd="));
    assert!(stdout.contains("tcp://localhost:4440"));
    assert!(stdout.contains("tcp://localhost:4441"));
    assert!(stdout.contains("1 connected client"));
    assert!(stdout.contains("console clients"));
    assert!(stdout.contains("kgdb clients"));
    assert!(!stdout.contains("traffic\x1b[0m"));
    assert!(!stdout.contains("0 connected clients"));
    assert!(!stdout.contains("clients\x1b[0m  none"));
    assert!(stdout.contains("\x1b[36m"));
    for icon in ["╭─", "●", "⌁", "▣", "◆", "⇣", "⇡", "◦"] {
        assert!(stdout.contains(icon), "missing {icon}: {stdout:?}");
    }
    assert!(stdout.contains("\x1b[") && stdout.contains("A\x1b[J"));

    let mut down = Vec::new();
    let mut up = Vec::new();
    let mut widths = Vec::new();
    for line in stdout.lines() {
        let mut plain: Vec<char> = Vec::new();
        let mut escaped = false;
        for ch in line.chars() {
            if escaped {
                escaped = !ch.is_ascii_alphabetic();
            } else if ch == '\x1b' {
                escaped = true;
            } else {
                plain.push(ch);
            }
        }
        widths.push(plain.len());
        down.extend(plain.iter().position(|&ch| ch == '⇣'));
        up.extend(plain.iter().position(|&ch| ch == '⇡'));
    }
    assert!(widths.iter().all(|&width| width == widths[0]), "misaligned: {widths:?}");
    assert_eq!(down.len(), 5);
    assert!(down.iter().all(|&column| column == down[0]));
    assert!(up.iter().all(|&column| column == up[0]));
}

#[test]
fn break_on_connect() {
    let mut bench = Bench::new(Settings::new());
    bench.connect_gdb();
    assert_eq!(bench.line_breaks, 1);
    assert_eq!(bench.written_to(5), b"g");

    let mut settings = Settings::new();
    settings.break_on_connect = false;
    let mut bench = Bench::new(settings);
    bench.connect_gdb();
    assert_eq!(bench.line_breaks, 0);
    assert_eq!(bench.written_to(5), b"");

    let mut settings = Settings::new();
    settings.break_str = vec![7];
    let mut bench = Bench::new(settings);
    bench.connect_gdb();
    assert_eq!(bench.line_breaks, 0);
    assert_eq!(bench.written_to(5), [7]);
}

#[test]
fn without_the_filter_the_debugger_sees_everything() {
    let mut settings = Settings::new();
    settings.gdb_split = false;
    let mut bench = Bench::new(settings);
    let (_, gdb_fd) = bench.connect_gdb();
    bench.serial_sends(b"boot log\n");
    assert_eq!(bench.written_to(gdb_fd), b"boot log\n");
}

#[test]
fn script_port_offers_telnet_and_catches_breaks() {
    let mut bench = Bench::new(Settings::new());
    bench.state.add_script(bench.local, bench.script, false);
    let (client, fd) = bench.connect_gdb();
    assert_eq!(bench.written_to(fd), TELNET_STARTUP);
    assert_eq!(bench.line_breaks, 0);
    bench.forget();
    bench.gdb_sends(client, &[0x03, 0xff, 0xf3, b'x']);
    assert_eq!(bench.written_to(5), [0x03, b'x']);
    assert_eq!(bench.line_breaks, 1);
    bench.serial_sends(b"log");
    assert_eq!(bench.written_to(fd), b"log");
}

#[test]
fn serial_reconnect_reopens_configured_device() {
    let mut bench = Bench::new(Settings::new());
    let (client, _) = bench.connect_console();

    bench.state.mark_serial_disconnected(bench.serial, 5000);

    let serial = bench.state.ports.get(bench.serial).expect("missing serial port");
    assert_eq!(serial.sock, -1);
    assert!(serial.serial_reconnect_at.is_some());
    assert!(serial.clients.contains(&client));
    assert!(bench.state.ports.contains(client));
    assert_eq!(bench.state.take_effects(), [Effect::Close(5)]);
    assert!(!bench.state.ports.get(bench.script).unwrap().script_in_use);

    assert_eq!(bench.state.due_serial_reconnects(5999), []);
    assert_eq!(bench.state.due_serial_reconnects(6000), [bench.serial]);
    assert_eq!(
        bench.state.reconnect_request(bench.serial),
        Some(("/dev/ttyUSB0".to_string(), Some(115200))),
    );
    bench.state.retry_serial_reconnect(bench.serial, None, 6000);
    assert_eq!(bench.state.due_serial_reconnects(6999), []);
    bench.state.retry_serial_reconnect(
        bench.serial,
        Some((9, "/dev/ttyUSB1".to_string())),
        7000,
    );

    let serial = bench.state.ports.get(bench.serial).expect("missing serial port");
    assert!(serial.sock >= 0);
    assert!(serial.serial_reconnect_at.is_none());
    assert_eq!(serial.name, "/dev/ttyUSB1");
    assert!(serial.clients.contains(&client));
    assert!(bench.state.master_rds.contains(9));
    assert_eq!(bench.state.nsockhandle, 10);
    assert!(bench.state.ports.get(bench.script).unwrap().script_in_use);
    assert_eq!(bench.state.ports.get(bench.script).unwrap().rscript, Some(bench.serial));

    bench.serial_sends(b"resume\n");
    assert_eq!(bench.written_to(6), b"resume\n");
}

#[test]
fn invalid_serial_fd_is_removed_from_select_sets() {
    let mut state = ProxyState::new(Settings::new());
    let serial_id = state.setup_serial_remote("/dev/pts/7", 5, Some(115200), 0);
    let sock = state.ports.get(serial_id).unwrap().sock;

    assert_eq!(state.cleanup_invalid_fds(&vec![sock], 100), 1);

    let serial = state.ports.get(serial_id).expect("missing serial port");
    assert_eq!(serial.sock, -1);
    assert!(serial.serial_reconnect_at.is_some());
    assert!(!state.master_rds.contains(sock));
    assert!(!state.master_wds.contains(sock));
}

#[test]
fn invalid_descriptors_of_every_class_are_dropped() {
    let mut bench = Bench::new(Settings::new());
    let (console, console_fd) = bench.connect_console();
    let (gdb, gdb_fd) = bench.connect_gdb();
    let bad = vec![3, console_fd, gdb_fd, 99];
    assert_eq!(bench.state.cleanup_invalid_fds(&bad, 200), 3);
    assert!(!bench.state.has(console));
    assert!(!bench.state.has(gdb));
    assert_eq!(bench.state.ports.get(bench.local).unwrap().sock, -1);
    for fd in bad {
        assert!(!bench.state.master_rds.contains(fd));
    }
    assert_eq!(bench.state.nsockhandle, 6);
    assert_eq!(bench.state.cleanup_invalid_fds(&vec![3], 300), 0);
}

#[test]
fn live_devices_are_probed() {
    let mut bench = Bench::new(Settings::new());
    assert_eq!(bench.state.due_serial_checks(999), []);
    assert_eq!(bench.state.due_serial_checks(1000), [bench.serial]);
    bench.state.serial_checked(bench.serial, true, 1000);
    assert_eq!(bench.state.due_serial_checks(1999), []);
    bench.state.serial_checked(bench.serial, false, 2000);
    assert_eq!(bench.state.ports.get(bench.serial).unwrap().sock, -1);
    assert_eq!(bench.state.due_serial_checks(9000), []);
    assert_eq!(bench.state.due_serial_reconnects(3000), [bench.serial]);
}

#[test]
fn ports_are_served_by_their_class() {
    let mut bench = Bench::new(Settings::new());
    let (console, _) = bench.connect_console();
    let (gdb, _) = bench.connect_gdb();
    assert_eq!(bench.state.dispatch_read(bench.local), ReadKind::LocalAccept);
    assert_eq!(bench.state.dispatch_read(bench.script), ReadKind::ScriptAccept);
    assert_eq!(bench.state.dispatch_read(bench.serial), ReadKind::RemotePort);
    assert_eq!(bench.state.dispatch_read(console), ReadKind::RemotePort);
    assert_eq!(bench.state.dispatch_read(gdb), ReadKind::ScriptClient);
    assert_eq!(bench.state.dispatch_read(1000), ReadKind::Nothing);
    let udp = bench.state.alloc_port(PortType::Udp, PortClass::Local);
    assert_eq!(bench.state.dispatch_read(udp), ReadKind::LocalData);
    let odd = bench.state.alloc_port(PortType::Udp, PortClass::Script);
    assert_eq!(bench.state.dispatch_read(odd), ReadKind::ScriptUnsupported);
    let listen = bench.state.alloc_port(PortType::Listen, PortClass::Remote);
    assert_eq!(bench.state.dispatch_read(listen), ReadKind::RemoteAccept);
    let fifo = bench.state.alloc_port(PortType::FifoCon, PortClass::Remote);
    assert_eq!(bench.state.dispatch_read(fifo), ReadKind::FifoSelection);
}
