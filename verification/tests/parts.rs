use kgdb_console_splitting_proxy::device::{
    default_serial_device, numbered_name_prefix, open_error_message, serial_numeric_prefix,
    serial_open_error, serial_reconnect_candidates, DirEntry, OpenAttempts, OpenStep,
};
use kgdb_console_splitting_proxy::errno::{
    errno_is_connect_pending, errno_is_interrupted, errno_is_permission_denied,
    errno_is_would_block,
};
use kgdb_console_splitting_proxy::fdset::{FdSet, FD_SETSIZE};
use kgdb_console_splitting_proxy::number::{decimal_of, decimal_signed_of, parse_number};
use kgdb_console_splitting_proxy::rs232::{
    line_steps, rate_to_code, setbaudrate, setcondefaults, setstopbits, ControlBits, LineSettings,
    LineStep,
};
use kgdb_console_splitting_proxy::port::{PortClass, PortType};
use kgdb_console_splitting_proxy::splitter::GdbSplitter;
use kgdb_console_splitting_proxy::state::{ProxyState, Settings};
use kgdb_console_splitting_proxy::telnet::{BreakJob, BreakStep};
use kgdb_console_splitting_proxy::text::{pad_left, pad_right, split_once, strip_prefix};
use nix::errno::Errno;
use nix::sys::termios::{BaudRate, ControlFlags};

#[test]
fn serial_split_permission_denied_suggests_sudo() {
    let message = serial_open_error("/tmp/unreadable", Errno::EACCES);
    assert!(
        message.contains("Run kgdb-console-splitting-proxy with sudo."),
        "unexpected message: {message}",
    );
    assert_eq!(
        message,
        "Error opening serial device /tmp/unreadable: EACCES: Permission denied. Run kgdb-console-splitting-proxy with sudo.",
    );
    assert!(serial_open_error("/dev/x", Errno::EPERM).ends_with(" with sudo."));
    assert_eq!(
        serial_open_error("/dev/x", Errno::ENOENT),
        "Error opening serial device /dev/x: ENOENT: No such file or directory.",
    );
    assert_eq!(
        open_error_message("/dev/x", "broken", false),
        "Error opening serial device /dev/x: broken.",
    );
}

#[test]
fn numbered_names() {
    assert_eq!(numbered_name_prefix("ttyUSB0"), Some("ttyUSB".to_string()));
    assert_eq!(numbered_name_prefix("tty1USB12"), Some("tty1USB".to_string()));
    assert_eq!(numbered_name_prefix("ttyUSB"), None);
    assert_eq!(numbered_name_prefix("123"), None);
    assert_eq!(numbered_name_prefix(""), None);
    assert_eq!(numbered_name_prefix("é7"), Some("é".to_string()));
}

#[test]
fn numbered_paths() {
    assert_eq!(
        serial_numeric_prefix("/dev/ttyUSB0"),
        Some(("/dev".to_string(), "ttyUSB".to_string())),
    );
    assert_eq!(
        serial_numeric_prefix("ttyS12"),
        Some((String::new(), "ttyS".to_string())),
    );
    assert_eq!(serial_numeric_prefix("/dev/console"), None);
    assert_eq!(serial_numeric_prefix("/"), None);
    assert_eq!(serial_numeric_prefix(""), None);
}

fn entry(name: &str) -> DirEntry {
    DirEntry { file_name: name.to_string(), path: format!("/dev/{name}") }
}

#[test]
fn reconnect_candidates() {
    let entries = vec![
        entry("ttyUSB10"),
        entry("ttyUSB2"),
        entry("ttyS1"),
        entry("ttyUSB"),
        entry("ttyUSBx"),
        entry("ttyUSB1"),
        entry("ttyUSB02"),
        entry("ttyUSB4294967296"),
        entry("ttyUSB0"),
    ];
    assert_eq!(
        serial_reconnect_candidates("/dev/ttyUSB1", "ttyUSB", &entries),
        ["/dev/ttyUSB1", "/dev/ttyUSB0", "/dev/ttyUSB02", "/dev/ttyUSB2", "/dev/ttyUSB10"],
    );
    assert_eq!(
        serial_reconnect_candidates("/dev/ttyUSB1", "ttyUSB", &Vec::new()),
        ["/dev/ttyUSB1"],
    );
}

#[test]
fn candidates_are_tried_in_order() {
    let mut attempts = OpenAttempts::new(
        "/dev/a0".to_string(),
        vec!["/dev/a0".to_string(), "/dev/a1".to_string()],
    );
    assert!(matches!(attempts.open_serial_candidate(), OpenStep::Open(path) if path == "/dev/a0"));
    attempts.failed("first".to_string());
    assert!(matches!(attempts.open_serial_candidate(), OpenStep::Open(path) if path == "/dev/a1"));
    attempts.failed("second".to_string());
    assert!(matches!(attempts.open_serial_candidate(), OpenStep::Failed(e) if e == "second"));
    let none = OpenAttempts::new("/dev/a0".to_string(), Vec::new());
    assert!(matches!(
        none.open_serial_candidate(),
        OpenStep::Failed(e) if e == "No serial candidates for /dev/a0"
    ));
}

#[test]
fn default_device() {
    assert_eq!(default_serial_device(true), Some("/dev/ttyUSB0".to_string()));
    assert_eq!(default_serial_device(false), None);
}

#[test]
fn rates() {
    assert_eq!(rate_to_code(115200), Some(BaudRate::B115200));
    assert_eq!(rate_to_code(50), Some(BaudRate::B50));
    assert_eq!(rate_to_code(4000000), Some(BaudRate::B4000000));
    assert_eq!(rate_to_code(0), None);
    assert_eq!(rate_to_code(115201), None);
    assert_eq!(setbaudrate(9600), Ok(BaudRate::B9600));
    assert_eq!(setbaudrate(1), Err("Invalid baud rate: 1".to_string()));
}

fn bits() -> ControlBits {
    ControlBits {
        cstopb: ControlFlags::CSTOPB.bits(),
        csize: ControlFlags::CSIZE.bits(),
        parenb: ControlFlags::PARENB.bits(),
        clocal: ControlFlags::CLOCAL.bits(),
        cs8: ControlFlags::CS8.bits(),
    }
}

#[test]
fn stop_bits() {
    let bits = bits();
    let other = ControlFlags::CREAD.bits();
    let both = other | bits.cstopb;
    assert_eq!(setstopbits(other, &bits, "2"), both);
    assert_eq!(setstopbits(other, &bits, "1.5"), both);
    assert_eq!(setstopbits(both, &bits, "1"), other);
    assert_eq!(setstopbits(both, &bits, ""), other);
}

#[test]
fn console_defaults() {
    let bits = bits();
    assert_eq!(bits.csize & bits.parenb, 0);
    assert_eq!(bits.cstopb & (bits.csize | bits.parenb), 0);
    assert_eq!(bits.clocal & (bits.csize | bits.parenb | bits.cstopb), 0);
    assert_eq!(bits.cs8 & !bits.csize, 0);
    let before = LineSettings {
        input_flags: 1,
        output_flags: 2,
        local_flags: 3,
        control_flags: (ControlFlags::CS5
            | ControlFlags::PARENB
            | ControlFlags::CSTOPB
            | ControlFlags::CREAD)
            .bits(),
        vmin: 4,
        vtime: 5,
    };
    let after = setcondefaults(&before, &bits);
    assert_eq!(
        after,
        LineSettings {
            input_flags: 0,
            output_flags: 0,
            local_flags: 0,
            control_flags: (ControlFlags::CS8 | ControlFlags::CLOCAL | ControlFlags::CREAD).bits(),
            vmin: 0,
            vtime: 0,
        },
    );
    assert_eq!(LineStep::ConsoleDefaults.applied(&before, &bits), after);
    let one_stop_bit = LineStep::StopBits.applied(&before, &bits);
    assert_eq!(one_stop_bit.control_flags, before.control_flags & !bits.cstopb);
    assert_eq!(one_stop_bit.vmin, 4);
    assert_eq!(LineStep::Rate(BaudRate::B9600).applied(&before, &bits), before);
}

#[test]
fn devices_are_set_up_in_order() {
    let steps = line_steps(Some(9600)).unwrap();
    assert!(matches!(
        steps[..],
        [LineStep::Rate(BaudRate::B9600), LineStep::StopBits, LineStep::ConsoleDefaults]
    ));
    let steps = line_steps(None).unwrap();
    assert!(matches!(steps[..], [LineStep::StopBits, LineStep::ConsoleDefaults]));
    assert_eq!(line_steps(Some(9601)).err().unwrap(), "Invalid baud rate: 9601");
}

#[test]
fn descriptor_sets() {
    assert_eq!(FD_SETSIZE, nix::sys::select::FD_SETSIZE);
    let mut set = FdSet::new();
    set.insert(0);
    set.insert(1023);
    set.insert(0);
    assert!(set.contains(0) && set.contains(1023) && !set.contains(5));
    set.remove(0);
    set.remove(-1);
    assert!(!set.contains(0) && set.contains(1023));
    assert_eq!(set.members(), &[1023]);
}

#[test]
fn error_classes() {
    assert!(errno_is_interrupted(Errno::EINTR) && !errno_is_interrupted(Errno::EAGAIN));
    assert!(errno_is_would_block(Errno::EAGAIN) && errno_is_would_block(Errno::EWOULDBLOCK));
    assert!(!errno_is_would_block(Errno::EINTR));
    assert!(errno_is_connect_pending(Errno::EALREADY) && !errno_is_connect_pending(Errno::EINTR));
    assert!(errno_is_permission_denied(Errno::EPERM) && !errno_is_permission_denied(Errno::EIO));
}

#[test]
fn numbers() {
    assert_eq!(parse_number("4294967295", 10, u32::MAX), Some(u32::MAX));
    assert_eq!(parse_number("4294967296", 10, u32::MAX), None);
    assert_eq!(parse_number("00000000000000000000000000000012", 10, 255), Some(12));
    assert_eq!(parse_number("99999999999999999999999999999999", 10, u32::MAX), None);
    assert_eq!(parse_number("fF", 16, 255), Some(255));
    assert_eq!(parse_number("g", 16, 255), None);
    assert_eq!(decimal_of(u64::MAX), u64::MAX.to_string());
    assert_eq!(decimal_of(0), "0");
    assert_eq!(decimal_signed_of(i32::MIN), i32::MIN.to_string());
    assert_eq!(decimal_signed_of(-1), "-1");
}

#[test]
fn text_parts() {
    assert_eq!(split_once("a:b:c", ':'), Some(("a", "b:c")));
    assert_eq!(split_once("abc", ':'), None);
    assert_eq!(strip_prefix("udp:1", "udp:"), Some("1"));
    assert_eq!(strip_prefix("ud", "udp:"), None);
    assert_eq!(strip_prefix("étoile", "é"), Some("toile"));
    assert_eq!(pad_left("7", 3), "  7");
    assert_eq!(pad_right("7", 3), "7  ");
    assert_eq!(pad_right("1234", 3), "1234");
}

#[test]
fn debugger_packets() {
    let mut gdb = GdbSplitter::new();
    assert!(!gdb.feed(&b"console text #12\n".to_vec()));
    assert!(gdb.packet.is_empty());
    assert!(gdb.feed(&b"+".to_vec()));
    assert_eq!(gdb.packet, b"+");
    gdb.empty();
    assert!(!gdb.feed(&b"$m+1-2#3".to_vec()));
    assert!(gdb.feed(&b"4tail".to_vec()));
    assert_eq!(gdb.packet, b"$m+1-2#34");
}

#[test]
fn an_endless_packet_is_dropped() {
    let mut gdb = GdbSplitter::new();
    let mut long = vec![b'$'];
    long.extend_from_slice(&vec![b'x'; 8191]);
    assert!(!gdb.feed(&long));
    assert_eq!(gdb.packet.len(), 8192);
    assert!(!gdb.feed(&vec![b'x']));
    assert!(gdb.packet.is_empty());
    assert_eq!(gdb.got_dollar, 0);
    assert!(gdb.feed(&b"$a#00".to_vec()));
    assert_eq!(gdb.packet, b"$a#00");
}

#[test]
fn break_sequences_step_by_step() {
    let mut state = ProxyState::new(Settings::new());
    let serial = state.setup_serial_remote("/dev/ttyS0", 5, None, 0);
    let other = state.alloc_port(PortType::Tcp, PortClass::Connection);
    let bytes = vec![0xff, 0xf3, b'g', 0xff];
    let mut job = BreakJob { to: serial, bytes: bytes.clone(), pos: 0 };
    assert_eq!(state.send_special_break(&mut job), BreakStep::SerialBreak(5));
    assert_eq!(state.send_special_break(&mut job), BreakStep::Write(b'g'));
    job.wrote(Some(1));
    assert_eq!(state.send_special_break(&mut job), BreakStep::Write(0xff));
    assert_eq!(state.send_special_break(&mut job), BreakStep::Done);
    let mut job = BreakJob { to: other, bytes, pos: 0 };
    assert_eq!(state.send_special_break(&mut job), BreakStep::Write(0xff));
    job.wrote(None);
    assert_eq!(state.send_special_break(&mut job), BreakStep::Done);
}
