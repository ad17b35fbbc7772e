use kgdb_console_splitting_proxy::amount::format_bytes;
use kgdb_console_splitting_proxy::port::{Port, PortClass, PortType};
use kgdb_console_splitting_proxy::setup::{RuntimeConfig, SerialSplitConfig};
use kgdb_console_splitting_proxy::state::{ProxyState, Settings};
use kgdb_console_splitting_proxy::status::{
    box_status_lines, client_traffic_totals, format_client_count, format_traffic_stats,
    push_client_status, render_status_row, serial_status_row, status_row, status_row_width,
    status_row_with_traffic, visible_width, ANSI_RED, ANSI_RESET,
};

fn config() -> SerialSplitConfig {
    SerialSplitConfig {
        device: "/dev/ttyUSB0".to_string(),
        baud: "115200".to_string(),
        console_port: 4440,
        gdb_port: 4441,
    }
}

fn strip_ansi(text: &str) -> String {
    let mut plain = String::new();
    let mut escaped = false;
    for ch in text.chars() {
        if escaped {
            escaped = !ch.is_ascii_alphabetic();
        } else if ch == '\x1b' {
            escaped = true;
        } else {
            plain.push(ch);
        }
    }
    plain
}

#[test]
fn disconnected_serial_status_uses_red_path_and_x() {
    let serial_split = SerialSplitConfig {
        device: "/dev/ttyUSB0".to_string(),
        baud: "115200".to_string(),
        console_port: 4440,
        gdb_port: 4441,
    };
    let mut serial = Port::new(0, PortType::Rs232, PortClass::Remote);
    serial.name = "/dev/ttyUSB1".to_string();
    serial.sock = -1;
    serial.rx_bytes = 12;
    serial.tx_bytes = 34;

    let row = serial_status_row(&serial_split, Some(&serial));

    assert!(
        row.left.contains(&format!("{ANSI_RED}✕{ANSI_RESET}")),
        "missing red disconnected marker: {:?}",
        row.left,
    );
    assert!(
        row.left
            .contains(&format!("{ANSI_RED}/dev/ttyUSB1{ANSI_RESET}")),
        "serial path is not red: {:?}",
        row.left,
    );
    assert!(
        row.left.contains("disconnected"),
        "missing disconnected label: {:?}",
        row.left,
    );
    assert!(row.right.is_some(), "missing traffic column");
}

#[test]
fn connected_serial_status_shows_path_rate_and_descriptor() {
    let mut serial = Port::new(0, PortType::Rs232, PortClass::Remote);
    serial.name = "/dev/ttyUSB0".to_string();
    serial.sock = 5;
    let row = serial_status_row(&config(), Some(&serial));
    assert!(row.left.contains("\x1b[33m/dev/ttyUSB0\x1b[0m"));
    assert_eq!(strip_ansi(&row.left), "⌁ Serial     /dev/ttyUSB0 @ 115200 baud  fd=5");
    let row = serial_status_row(&config(), None);
    assert_eq!(strip_ansi(&row.left), "✕ Serial     /dev/ttyUSB0 @ 115200 baud  disconnected");
    assert_eq!(row.right, None);
}

#[test]
fn amounts_of_bytes() {
    assert_eq!(format_bytes(0), "0 B");
    assert_eq!(format_bytes(1023), "1023 B");
    assert_eq!(format_bytes(1024), "1.0 KiB");
    assert_eq!(format_bytes(1536), "1.5 KiB");
    assert_eq!(format_bytes(1048575), "1024.0 KiB");
    assert_eq!(format_bytes(1048576), "1.0 MiB");
    assert_eq!(format_bytes(1073741824), "1.0 GiB");
    assert_eq!(format_bytes(u64::MAX), "17179869184.0 GiB");
}

fn with_doubles(bytes: u64) -> String {
    let value = bytes as f64;
    if value >= 1073741824.0 {
        format!("{:.1} GiB", value / 1073741824.0)
    } else if value >= 1048576.0 {
        format!("{:.1} MiB", value / 1048576.0)
    } else if value >= 1024.0 {
        format!("{:.1} KiB", value / 1024.0)
    } else {
        format!("{bytes} B")
    }
}

#[test]
fn amounts_of_bytes_round_like_doubles() {
    for bytes in 0..200_000u64 {
        assert_eq!(format_bytes(bytes), with_doubles(bytes));
    }
    for shift in 10..64u32 {
        let base = 1u64 << shift;
        for step in [0u64, 1, 2, 3, 51, 52, 512, 513, 1024, 1025, 1536, 3072] {
            for bytes in [base.wrapping_add(step), base.wrapping_sub(step), base + base / 20 + step] {
                assert_eq!(format_bytes(bytes), with_doubles(bytes), "{bytes}");
            }
        }
    }
    let mut bytes = 1u64;
    for _ in 0..100_000 {
        bytes = bytes.wrapping_mul(6364136223846793005).wrapping_add(1442695040888963407);
        assert_eq!(format_bytes(bytes), with_doubles(bytes), "{bytes}");
    }
}

#[test]
fn client_counts() {
    assert_eq!(format_client_count(0), "\x1b[2m0 connected clients\x1b[0m");
    assert_eq!(format_client_count(1), "\x1b[32m1 connected client\x1b[0m");
    assert_eq!(format_client_count(12), "\x1b[32m12 connected clients\x1b[0m");
}

#[test]
fn traffic_is_padded() {
    assert_eq!(
        format_traffic_stats(0, 1536),
        "   0 B\x1b[34m⇣\x1b[0m 1.5 KiB\x1b[33m⇡\x1b[0m",
    );
    assert_eq!(visible_width(&format_traffic_stats(0, 0)), 15);
    assert_eq!(visible_width(&format_traffic_stats(1023, 9)), 15);
}

#[test]
fn widths_leave_escapes_out() {
    assert_eq!(visible_width(""), 0);
    assert_eq!(visible_width("abc"), 3);
    assert_eq!(visible_width("\x1b[31mé\x1b[0m⇡"), 2);
    assert_eq!(visible_width("a\x1b[12"), 1);
}

#[test]
fn rows_are_filled() {
    let row = status_row("left".to_string());
    assert_eq!(status_row_width(&row), 4);
    assert_eq!(render_status_row(&row, 64), "left");
    let row = status_row_with_traffic("left".to_string(), 0, 0);
    assert_eq!(status_row_width(&row), 4 + 2 + 15);
    let text = render_status_row(&row, 64);
    assert_eq!(visible_width(&text), 64);
    assert!(text.starts_with(&format!("left{}", " ".repeat(45))));
    assert_eq!(visible_width(&render_status_row(&row, 10)), 19);
}

#[test]
fn box_of_nothing() {
    let lines = box_status_lines(&Vec::new());
    let plain: Vec<String> = lines.iter().map(|line| strip_ansi(line)).collect();
    let fill = "─".repeat(28);
    assert_eq!(plain, [
        format!("╭─ kgdb-console-splitting-proxy v0.0.1 {fill}╮"),
        format!("╰{}╯", "─".repeat(66)),
    ]);
}

#[test]
fn box_grows_with_its_widest_row() {
    let rows = vec![
        status_row("a".repeat(100)),
        status_row_with_traffic("b".to_string(), 1, 2),
        status_row(String::new()),
    ];
    let lines = box_status_lines(&rows);
    assert_eq!(lines.len(), 5);
    for line in &lines {
        assert_eq!(visible_width(line), 104, "misaligned: {line:?}");
    }
}

#[test]
fn clients_are_listed() {
    let mut state = ProxyState::new(Settings::new());
    let a = state.alloc_port(PortType::Tcp, PortClass::Connection);
    let b = state.alloc_port(PortType::Tcp, PortClass::Connection);
    state.record_rx(a, 10);
    state.record_tx(b, 20);
    state.record_rx(b, 1);
    assert_eq!(client_traffic_totals(&state, &vec![a, b, 77]), (11, 20));
    let mut lines = Vec::new();
    push_client_status(&mut lines, &state, "console", &Vec::new());
    push_client_status(&mut lines, &state, "kgdb", &vec![b, 77]);
    assert_eq!(lines.len(), 3);
    assert_eq!(lines[0].left, "\x1b[2mconsole clients\x1b[0m  none");
    assert_eq!(lines[1].left, "  \x1b[2mkgdb clients\x1b[0m");
    assert_eq!(strip_ansi(&lines[2].left), "    ◦ id=1   fd=-1 ");
    assert_eq!(lines[2].right, Some(format_traffic_stats(1, 20)));
}

#[test]
fn nothing_is_shown_without_a_split_line() {
    let mut state = ProxyState::new(Settings::new());
    assert!(state.status_dirty);
    let shown = state.print_runtime_status(&RuntimeConfig { serial_split: None });
    assert_eq!(shown, None);
    assert!(!state.status_dirty);
    assert_eq!(state.status_line_count, 0);
}

#[test]
fn status_display_of_an_idle_splitter() {
    let mut state = ProxyState::new(Settings::new());
    let local = state.setup_local_port(PortType::Tcp, false, 3);
    state.set_port_num(local, 4440);
    state.watch_port(local);
    let script = state.setup_local_port(PortType::Tcp, true, 4);
    state.set_port_num(script, 4441);
    state.add_script(local, script, true);
    let serial = state.setup_serial_remote("/dev/ttyUSB0", 5, Some(115200), 0);
    state.join(local, serial);
    let config = RuntimeConfig::from_state(&state, "/dev/ttyUSB0,115200");
    let first = state.print_runtime_status(&config).unwrap();
    let plain: Vec<String> = first.lines().map(strip_ansi).collect();
    assert_eq!(plain, [
        "╭─ kgdb-console-splitting-proxy v0.0.1 ────────────────────────────╮",
        "│ ● Mode       serial-split                                        │",
        "│ ⌁ Serial     /dev/ttyUSB0 @ 115200 baud  fd=5       0 B⇣    0 B⇡ │",
        "│ ▣ Console    tcp://localhost:4440  0 connected clients           │",
        "│ ◆ KGDB       tcp://localhost:4441  0 connected clients           │",
        "╰──────────────────────────────────────────────────────────────────╯",
    ]);
    assert_eq!(state.status_line_count, 6);
    let second = state.print_runtime_status(&config).unwrap();
    assert_eq!(second, format!("\x1b[6A\x1b[J{first}"));
}

#[test]
fn only_a_split_serial_line_is_configured() {
    let mut state = ProxyState::new(Settings::new());
    let local = state.setup_local_port(PortType::Tcp, false, 3);
    let script = state.setup_local_port(PortType::Tcp, true, 4);
    state.add_script(local, script, false);
    let serial = state.setup_serial_remote("/dev/ttyS0", 5, None, 0);
    state.join(local, serial);
    assert!(RuntimeConfig::from_state(&state, "/dev/ttyS0").serial_split.is_none());
    state.add_script(local, script, true);
    match RuntimeConfig::from_state(&state, "/dev/ttyS0").serial_split {
        Some(split) => {
            assert_eq!(split.device, "/dev/ttyS0");
            assert_eq!(split.baud, "default");
        }
        None => panic!("split line not configured"),
    }
}

#[test]
fn the_right_column_ends_at_every_edge() {
    let row = status_row_with_traffic("left".to_string(), 12, 34);
    let needed = status_row_width(&row);
    let right = format_traffic_stats(12, 34);
    for inner in [needed - 2, needed, needed + 1, 100] {
        let text = render_status_row(&row, inner);
        assert_eq!(visible_width(&text), inner);
        assert!(text.ends_with(&right));
    }
}
