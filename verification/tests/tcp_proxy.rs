use kgdb_console_splitting_proxy::accept::{connect_outcome, Link, RemotePlan};
use kgdb_console_splitting_proxy::fdset::FdSet;
use kgdb_console_splitting_proxy::port::{PortClass, PortId, PortType, SockAddr};
use kgdb_console_splitting_proxy::ready::ReadyStep;
use kgdb_console_splitting_proxy::remote::ConnectState;
use kgdb_console_splitting_proxy::round::{Action, Round};
use kgdb_console_splitting_proxy::state::{Effect, ProxyState, Settings};
use kgdb_console_splitting_proxy::turn::{after_wait, AfterWait, Phase, Turn, TurnStep};
use kgdb_console_splitting_proxy::write::{
    FlushStep, SendReply, SendRequest, WriteJob, WriteStep,
};
use nix::errno::Errno;

const REMOTE: SockAddr = SockAddr { ip: 0x7f000001, port: 2004 };

fn took(n: usize) -> SendReply {
    SendReply { got: n as isize, errno: Errno::UnknownErrno }
}

fn refused(errno: Errno) -> SendReply {
    SendReply { got: -1, errno }
}

fn tcp_proxy() -> (ProxyState, PortId, PortId) {
    let mut state = ProxyState::new(Settings::new());
    let local = state.setup_local_port(PortType::Tcp, false, 3);
    state.watch_port(local);
    let remote = state.setup_remote_port(PortType::Tcp, "127.0.0.1", REMOTE, None);
    state.join(local, remote);
    (state, local, remote)
}

/// Carries the round out on descriptors that take everything, and returns what they took.
fn sent(state: &mut ProxyState, mut round: Round) -> Vec<SendRequest> {
    let mut requests = Vec::new();
    loop {
        match round.step(state, 0) {
            Action::Finished(_) => return requests,
            Action::Next => {}
            Action::Break(_) => panic!("unexpected break"),
            Action::Write(mut job) => {
                let mut step = state.tracked_port_write(&job);
                loop {
                    match step {
                        WriteStep::Done(result) => {
                            round.wrote(state, result, 0);
                            break;
                        }
                        WriteStep::Send(request) => {
                            let n = request.bytes.len();
                            requests.push(request);
                            step = state.write_reply(&mut job, took(n));
                        }
                    }
                }
            }
        }
    }
}

#[test]
fn forwards_tcp_payload_to_remote_server() {
    let (mut state, local, remote) = tcp_proxy();
    assert_eq!(state.remote_plan(state.ports.get(local).unwrap().remote), RemotePlan::Connect(REMOTE));
    let round = state.handle_local_accept(local, 5, Some(Link { sock: 6, connecting: false }));
    assert!(sent(&mut state, round).is_empty());
    let client = remote + 1;
    let link = remote + 2;
    assert_eq!(state.ports.get(client).unwrap().peer, Some(link));
    assert_eq!(state.ports.get(link).unwrap().peer, Some(client));
    assert!(state.master_rds.contains(5) && state.master_rds.contains(6));

    let round = state.handle_remote_port_read(client, b"hello".to_vec(), None, 0);
    let requests = sent(&mut state, round);
    assert_eq!(requests.len(), 1);
    assert_eq!(requests[0].sock, 6);
    assert_eq!(requests[0].bytes, *b"hello");
    assert_eq!(state.ports.get(client).unwrap().rx_bytes, 5);
    assert_eq!(state.ports.get(link).unwrap().tx_bytes, 5);

    let round = state.handle_remote_port_read(client, Vec::new(), None, 0);
    assert!(round.stop);
    assert!(!state.has(client) && !state.has(link));
    assert_eq!(
        state.take_effects(),
        [Effect::Shutdown(5), Effect::Close(5), Effect::Shutdown(6), Effect::Close(6)],
    );
    assert!(state.has(local) && state.has(remote));
}

#[test]
fn a_client_without_a_remote_is_turned_away() {
    let (mut state, local, remote) = tcp_proxy();
    let round = state.handle_local_accept(local, 5, None);
    assert!(sent(&mut state, round).is_empty());
    assert!(!state.has(remote + 1));
    assert!(!state.master_rds.contains(5));
    assert_eq!(state.take_effects(), [Effect::Shutdown(5), Effect::Close(5)]);
}

#[test]
fn bytes_wait_while_a_connection_is_made() {
    let (mut state, local, remote) = tcp_proxy();
    state.handle_local_accept(local, 5, Some(Link { sock: 6, connecting: true }));
    let (client, link) = (remote + 1, remote + 2);
    assert!(!state.master_rds.contains(6) && state.master_wds.contains(6));
    let round = state.handle_remote_port_read(client, b"early".to_vec(), None, 0);
    assert!(sent(&mut state, round).is_empty());
    assert_eq!(state.ports.get(link).unwrap().tx_buf, *b"early");

    assert!(state.finish_pending_connect(link, Ok(libc::EINPROGRESS)));
    assert!(state.ports.get(link).unwrap().connecting);
    assert!(state.finish_pending_connect(link, Ok(libc::EALREADY)));
    assert!(matches!(state.flush_pending_write(link), FlushStep::Done(true)));
    assert!(!state.finish_pending_connect(link, Ok(libc::ECONNREFUSED)));
    assert!(!state.finish_pending_connect(link, Err(Errno::EBADF)));
    assert!(state.finish_pending_connect(link, Ok(0)));
    assert!(!state.ports.get(link).unwrap().connecting);
    assert!(state.master_rds.contains(6) && state.master_wds.contains(6));

    match state.flush_pending_write(link) {
        FlushStep::Send(request) => assert_eq!(request.bytes, *b"early"),
        FlushStep::Done(_) => panic!("nothing to flush"),
    }
    match state.flush_reply(link, took(2)) {
        FlushStep::Send(request) => assert_eq!(request.bytes, *b"rly"),
        FlushStep::Done(_) => panic!("flush ended early"),
    }
    assert!(matches!(state.flush_reply(link, refused(Errno::EINTR)), FlushStep::Send(_)));
    assert!(matches!(state.flush_reply(link, refused(Errno::EAGAIN)), FlushStep::Done(true)));
    assert!(state.master_wds.contains(6));
    assert!(matches!(state.flush_pending_write(link), FlushStep::Send(_)));
    assert!(matches!(state.flush_reply(link, took(3)), FlushStep::Done(true)));
    assert!(!state.master_wds.contains(6));
    assert_eq!(state.ports.get(link).unwrap().tx_bytes, 5);
}

#[test]
fn a_failed_flush_says_so() {
    let (mut state, local, remote) = tcp_proxy();
    state.handle_local_accept(local, 5, Some(Link { sock: 6, connecting: false }));
    let link = remote + 2;
    state.queue_pending_write(link, &vec![1, 2, 3], 1);
    assert!(matches!(state.flush_pending_write(link), FlushStep::Send(_)));
    assert!(matches!(state.flush_reply(link, refused(Errno::EPIPE)), FlushStep::Done(false)));
    assert_eq!(state.ports.get(link).unwrap().tx_buf, [2, 3]);
}

#[test]
fn established_connections_without_bytes_are_only_read() {
    let (mut state, local, remote) = tcp_proxy();
    state.handle_local_accept(local, 5, Some(Link { sock: 6, connecting: true }));
    assert!(state.connect_finished(remote + 2, ConnectState::Established));
    assert!(state.master_rds.contains(6) && !state.master_wds.contains(6));
    assert!(state.connect_finished(remote + 2, ConnectState::Failed));
    assert!(state.connect_finished(99, ConnectState::Failed));
}

#[test]
fn connect_outcomes() {
    assert_eq!(connect_outcome(Ok(())), Some(false));
    assert_eq!(connect_outcome(Err(Errno::EINPROGRESS)), Some(true));
    assert_eq!(connect_outcome(Err(Errno::EALREADY)), Some(true));
    assert_eq!(connect_outcome(Err(Errno::ECONNREFUSED)), None);
}

#[test]
fn a_slow_reader_is_queued_for() {
    let (mut state, local, remote) = tcp_proxy();
    state.handle_local_accept(local, 5, Some(Link { sock: 6, connecting: false }));
    let link = remote + 2;
    let mut job = WriteJob { port: link, data: b"abcdef".to_vec(), oob: false, written: 0 };
    assert!(matches!(state.tracked_port_write(&job), WriteStep::Send(_)));
    assert!(matches!(state.write_reply(&mut job, took(2)), WriteStep::Send(_)));
    assert!(matches!(state.write_reply(&mut job, refused(Errno::EINTR)), WriteStep::Send(_)));
    assert!(matches!(
        state.write_reply(&mut job, refused(Errno::EAGAIN)),
        WriteStep::Done(Some(6)),
    ));
    assert_eq!(state.ports.get(link).unwrap().tx_buf, *b"cdef");
    assert!(state.master_wds.contains(6));
    let more = WriteJob { port: link, data: b"gh".to_vec(), oob: false, written: 0 };
    assert!(matches!(state.tracked_port_write(&more), WriteStep::Done(Some(2))));
    assert_eq!(state.ports.get(link).unwrap().tx_buf, *b"cdefgh");
    let big = WriteJob { port: link, data: vec![0; 1048576], oob: false, written: 0 };
    assert!(matches!(state.tracked_port_write(&big), WriteStep::Done(None)));
    assert_eq!(state.ports.get(link).unwrap().tx_buf.len(), 6);
    let mut urgent = WriteJob { port: link, data: b"!".to_vec(), oob: true, written: 0 };
    match state.tracked_port_write(&urgent) {
        WriteStep::Send(request) => assert!(request.oob),
        WriteStep::Done(_) => panic!("urgent data was queued"),
    }
    assert!(matches!(
        state.write_reply(&mut urgent, refused(Errno::EAGAIN)),
        WriteStep::Done(None),
    ));
}

#[test]
fn writes_to_nothing() {
    let (mut state, _, _) = tcp_proxy();
    let job = WriteJob { port: 50, data: vec![1], oob: false, written: 0 };
    assert!(matches!(state.tracked_port_write(&job), WriteStep::Done(None)));
    let job = WriteJob { port: 50, data: vec![], oob: false, written: 0 };
    assert!(matches!(state.tracked_port_write(&job), WriteStep::Done(Some(0))));
    assert!(matches!(state.flush_pending_write(50), FlushStep::Done(true)));
}

#[test]
fn forwards_udp_replies_to_original_client() {
    let mut state = ProxyState::new(Settings::new());
    let local = state.setup_local_port(PortType::Udp, false, 3);
    state.watch_port(local);
    let remote = state.setup_remote_port(PortType::Udp, "127.0.0.1", REMOTE, Some(4));
    state.join(local, remote);
    let client = SockAddr { ip: 0x7f000001, port: 40000 };

    assert_eq!(state.remote_plan(Some(remote)), RemotePlan::Attach);
    let peer = state.open_local_peer(local, None);
    assert_eq!(peer, Some(remote));
    let round = match state.handle_local_port_read(local, peer, b"hi".to_vec(), Some(client)) {
        Some(round) => round,
        None => panic!("proxy ended"),
    };
    let requests = sent(&mut state, round);
    assert_eq!(requests.len(), 1);
    assert_eq!((requests[0].sock, requests[0].to), (4, Some(REMOTE)));
    assert_eq!(requests[0].bytes, b"hi");

    let round = state.handle_remote_port_read(remote, b"ok".to_vec(), Some(REMOTE), 0);
    let requests = sent(&mut state, round);
    assert_eq!(requests.len(), 1);
    assert_eq!((requests[0].sock, requests[0].to), (3, Some(client)));
    assert_eq!(requests[0].bytes, b"ok");
}

#[test]
fn stdin_ends_the_proxy() {
    let mut state = ProxyState::new(Settings::new());
    let local = state.setup_local_port(PortType::StdinOut, false, 0);
    let remote = state.setup_remote_port(PortType::Udp, "127.0.0.1", REMOTE, Some(4));
    state.join(local, remote);
    let peer = state.open_local_peer(local, None);
    assert!(state.handle_local_port_read(local, peer, Vec::new(), None).is_none());
    assert!(state.handle_local_port_read(local, None, Vec::new(), None).is_some());
    assert!(state.handle_local_port_read(local, peer, b"x".to_vec(), None).is_some());
}

#[test]
fn standard_output_outlives_standard_input() {
    let mut state = ProxyState::new(Settings::new());
    let local = state.setup_local_port(PortType::StdinOut, false, 0);
    state.watch_port(local);
    let serial = state.setup_serial_remote("/dev/ttyS0", 5, None, 0);
    state.join(local, serial);
    let peer = state.open_local_peer(local, None);
    assert_eq!(peer, Some(serial));
    assert_eq!(state.cleanup_invalid_fds(&vec![0], 0), 1);

    let round = state.handle_remote_port_read(serial, b"text".to_vec(), None, 0);
    assert!(sent(&mut state, round).is_empty());

    let round = state.handle_oob_read(serial, b"!".to_vec(), 0);
    let requests = sent(&mut state, round);
    assert_eq!(requests.len(), 1);
    assert_eq!(requests[0].port_type, PortType::StdinOut);
    assert_eq!(requests[0].bytes, b"!");
}

#[test]
fn urgent_data_goes_to_the_peer() {
    let (mut state, local, remote) = tcp_proxy();
    state.handle_local_accept(local, 5, Some(Link { sock: 6, connecting: false }));
    let (client, link) = (remote + 1, remote + 2);
    let round = state.handle_oob_read(client, vec![1], 0);
    let requests = sent(&mut state, round);
    assert_eq!((requests[0].sock, requests[0].oob), (6, true));
    assert!(state.handle_oob_read(client, vec![], 0).stop);
    assert!(!state.has(client) && !state.has(link));
}

#[test]
fn a_script_port_serves_the_first_connection() {
    let mut state = ProxyState::new(Settings::new());
    let local = state.setup_local_port(PortType::Tcp, false, 3);
    let script = state.setup_local_port(PortType::Tcp, true, 4);
    state.add_script(local, script, false);
    let remote = state.setup_remote_port(PortType::Tcp, "127.0.0.1", REMOTE, None);
    state.join(local, remote);
    assert!(!state.ports.get(script).unwrap().script_in_use);
    state.handle_local_accept(local, 5, Some(Link { sock: 6, connecting: false }));
    state.handle_local_accept(local, 7, Some(Link { sock: 8, connecting: false }));
    let (first, second) = (remote + 1, remote + 3);
    assert_eq!(state.ports.get(script).unwrap().lscript, Some(first));
    assert_eq!(state.ports.get(script).unwrap().rscript, Some(first + 1));
    assert_eq!(state.ports.get(first).unwrap().script_ref, Some(script));
    assert_eq!(state.ports.get(second).unwrap().script_ref, None);
    state.killport(first, 0);
    assert!(!state.ports.get(script).unwrap().script_in_use);
    assert!(state.has(second));
}

#[test]
fn the_remote_side_may_connect() {
    let mut state = ProxyState::new(Settings::new());
    let remote = state.setup_remote_port(PortType::Listen, "0", REMOTE, Some(4));
    assert_eq!(state.remote_plan(Some(remote)), RemotePlan::Unavailable);
    state.handle_remote_port_accept(remote, 9);
    assert_eq!((state.ports.get(remote).unwrap().sock, state.listen_fd), (9, 4));
    assert!(state.master_rds.contains(9) && !state.master_rds.contains(4));
    state.handle_remote_port_accept(remote, 10);
    assert_eq!(state.ports.get(remote).unwrap().sock, 9);
    state.killport(remote, 0);
    assert_eq!((state.ports.get(remote).unwrap().sock, state.listen_fd), (4, -1));
    assert!(state.master_rds.contains(4) && !state.master_rds.contains(9));
    assert_eq!(state.take_effects(), [Effect::Close(9)]);
}

fn select_console(state: &mut ProxyState, line: &[u8]) -> Option<u16> {
    let mut port = None;
    for &byte in line {
        if let Some(selected) = state.handle_remote_port_fifo_con_read(byte) {
            port = Some(selected);
        }
    }
    port
}

#[test]
fn consoles_are_selected_on_a_fifo() {
    let mut state = ProxyState::new(Settings::new());
    let remote = state.setup_fifo_remote("0", "/tmp/fifo", 4);
    assert_eq!(select_console(&mut state, b"2004\r\n"), Some(2004));
    assert_eq!(select_console(&mut state, b"+7\n"), Some(7));
    assert_eq!(select_console(&mut state, b"12\x00junk\n"), Some(12));
    assert_eq!(select_console(&mut state, b"70000\n"), Some(0));
    assert_eq!(select_console(&mut state, b"\n"), Some(0));
    assert_eq!(select_console(&mut state, &[b'9'; 50]), None);
    assert_eq!(select_console(&mut state, b"5\n"), Some(5));
    state.fifo_connected(remote, 9);
    assert_eq!((state.ports.get(remote).unwrap().sock, state.fifo_con_fd), (9, 4));
    state.killport(remote, 0);
    assert_eq!((state.ports.get(remote).unwrap().sock, state.fifo_con_fd), (4, -1));
    assert_eq!(state.take_effects(), [Effect::Close(9)]);
    state.fifo_ended(remote);
    assert!(!state.master_rds.contains(4));
    assert_eq!(state.take_effects(), [Effect::Close(4)]);
    state.fifo_reopened(remote, 11);
    assert!(state.master_rds.contains(11));
    assert_eq!(state.nsockhandle, 12);
}

#[test]
fn removing_ports() {
    let mut state = ProxyState::new(Settings::new());
    let id = state.alloc_port(PortType::Tcp, PortClass::Connection);
    state.status_dirty = false;
    assert!(state.remove_port(id).is_some());
    assert!(state.status_dirty);
    state.status_dirty = false;
    assert!(state.remove_port(id).is_none());
    assert!(!state.status_dirty);
    let script = state.setup_local_port(PortType::Tcp, true, 4);
    assert!(state.remove_port(script).is_some());
    assert!(!state.has(script));
}

#[test]
fn a_terminal_server_is_split_as_well() {
    let mut state = ProxyState::new(Settings::new());
    let local = state.setup_local_port(PortType::Tcp, false, 3);
    let script = state.setup_local_port(PortType::Tcp, true, 4);
    state.add_script(local, script, true);
    let remote = state.setup_remote_port(PortType::Tcp, "127.0.0.1", REMOTE, None);
    state.join(local, remote);
    state.handle_local_accept(local, 5, Some(Link { sock: 6, connecting: false }));
    state.handle_script_port_read(script, 7);
    let (client, link) = (remote + 1, remote + 2);

    let round = state.handle_remote_port_read(link, b"log$T05#b9".to_vec(), None, 0);
    let requests = sent(&mut state, round);
    assert_eq!(requests.len(), 2);
    assert_eq!((requests[0].sock, &requests[0].bytes[..]), (5, &b"log"[..]));
    assert_eq!((requests[1].sock, &requests[1].bytes[..]), (7, &b"$T05#b9"[..]));

    let round = state.handle_remote_port_read(link, b"$T05#b9".to_vec(), None, 0);
    let requests = sent(&mut state, round);
    assert_eq!(requests.len(), 1);
    assert_eq!(requests[0].sock, 7);

    let round = state.handle_remote_port_read(client, b"a$g#67".to_vec(), None, 0);
    let requests = sent(&mut state, round);
    assert_eq!((requests[0].sock, &requests[0].bytes[..]), (6, &b"a$g#67"[..]));
}

#[test]
fn script_clients_need_an_end_to_write_to() {
    let mut state = ProxyState::new(Settings::new());
    let local = state.setup_local_port(PortType::Udp, false, 3);
    let script = state.setup_local_port(PortType::Tcp, true, 4);
    state.add_script(local, script, false);
    let remote = state.setup_remote_port(PortType::Udp, "127.0.0.1", REMOTE, Some(5));
    state.join(local, remote);
    let client = state.next_id;
    state.handle_script_port_read(script, 7);
    assert!(state.script_ready(client, &b"x".to_vec()));

    state.remove_port(local);
    assert!(state.script_ready(client, &b"x".to_vec()));
    let round = state.handle_script_client_read(client, b"x".to_vec(), 0);
    let requests = sent(&mut state, round);
    assert_eq!(requests.len(), 1);
    assert_eq!(requests[0].sock, 5);

    state.remove_port(remote);
    assert!(!state.script_ready(client, &b"x".to_vec()));
    assert!(state.script_ready(client, &vec![0xff, 0xfb, 0x01]));
    assert!(state.script_ready(client, &vec![]));
}

#[test]
fn a_flush_sends_and_counts_every_byte() {
    let (mut state, local, remote) = tcp_proxy();
    state.handle_local_accept(local, 5, Some(Link { sock: 6, connecting: true }));
    let link = remote + 2;
    let job = WriteJob { port: link, data: vec![7; 10000], oob: false, written: 0 };
    assert!(matches!(state.tracked_port_write(&job), WriteStep::Done(Some(10000))));
    assert!(state.finish_pending_connect(link, Ok(0)));

    let replies = [took(8000), refused(Errno::EINTR), took(500), refused(Errno::EAGAIN)];
    let mut step = state.flush_pending_write(link);
    for reply in replies {
        assert!(matches!(step, FlushStep::Send(_)));
        step = state.flush_reply(link, reply);
    }
    assert!(matches!(step, FlushStep::Done(true)));
    assert_eq!(state.ports.get(link).unwrap().tx_buf, vec![7; 1500]);
    assert_eq!(state.ports.get(link).unwrap().tx_bytes, 8500);
}

#[test]
fn a_failed_connection_ends_its_client() {
    let (mut state, local, remote) = tcp_proxy();
    state.handle_local_accept(local, 5, Some(Link { sock: 6, connecting: true }));
    let (client, link) = (remote + 1, remote + 2);
    assert!(matches!(state.handle_writable(link, 0), ReadyStep::AskError(6)));
    let step = state.writable_connected(link, Ok(libc::ECONNREFUSED), 0);
    assert!(matches!(step, ReadyStep::Done(true)));
    assert!(!state.has(client) && !state.has(link));
}

#[test]
fn waiting_bytes_are_written_when_the_port_is_ready() {
    let (mut state, local, remote) = tcp_proxy();
    state.handle_local_accept(local, 5, Some(Link { sock: 6, connecting: true }));
    let link = remote + 2;
    assert!(matches!(state.handle_writable(local, 0), ReadyStep::Done(false)));
    state.queue_pending_write(link, &b"abc".to_vec(), 0);
    match state.writable_connected(link, Ok(0), 0) {
        ReadyStep::Send(request) => assert_eq!(request.bytes, *b"abc"),
        _ => panic!("nothing to send"),
    }
    assert!(matches!(state.writable_sent(link, took(1), 0), ReadyStep::Send(_)));
    assert!(matches!(state.writable_sent(link, took(2), 0), ReadyStep::Done(false)));
    assert!(!state.master_wds.contains(6));
    state.queue_pending_write(link, &b"d".to_vec(), 0);
    assert!(matches!(state.handle_writable(link, 0), ReadyStep::Send(_)));
    let step = state.writable_sent(link, refused(Errno::EPIPE), 0);
    assert!(matches!(step, ReadyStep::Done(true)));
    assert!(!state.has(link));
}

fn served(state: &ProxyState, turn: &mut Turn, ends: bool) -> Vec<(Phase, PortId)> {
    let mut served = Vec::new();
    loop {
        match turn.step(state) {
            TurnStep::Serve(phase, id) => {
                served.push((phase, id));
                if ends {
                    turn.end_phase();
                }
            }
            TurnStep::Next => {}
            TurnStep::Over => return served,
        }
    }
}

fn fds(members: &[i32]) -> FdSet {
    let mut set = FdSet::new();
    for &fd in members {
        set.insert(fd);
    }
    set
}

#[test]
fn ready_ports_are_served_in_order() {
    let (mut state, local, remote) = tcp_proxy();
    state.handle_local_accept(local, 5, Some(Link { sock: 6, connecting: false }));
    let (client, link) = (remote + 1, remote + 2);
    let mut turn = Turn::new(&state, fds(&[3, 5, 9]), fds(&[6]), fds(&[5, 6]));
    assert_eq!(served(&state, &mut turn, false), [
        (Phase::Read, local),
        (Phase::Read, client),
        (Phase::Write, link),
        (Phase::Urgent, client),
        (Phase::Urgent, link),
    ]);
    let mut turn = Turn::new(&state, fds(&[3, 5, 9]), fds(&[6]), fds(&[5, 6]));
    assert_eq!(served(&state, &mut turn, true), [
        (Phase::Read, local),
        (Phase::Write, link),
        (Phase::Urgent, client),
    ]);
}

#[test]
fn ports_that_are_gone_are_not_served() {
    let (mut state, local, remote) = tcp_proxy();
    state.handle_local_accept(local, 5, Some(Link { sock: 6, connecting: false }));
    let mut turn = Turn::new(&state, fds(&[3, 5, 6]), FdSet::new(), fds(&[6]));
    assert_eq!(turn.step(&state), TurnStep::Serve(Phase::Read, local));
    state.killport(remote + 1, 0);
    assert!(served(&state, &mut turn, false).is_empty());
}

#[test]
fn waiting_and_status() {
    assert_eq!(after_wait(Ok(0)), AfterWait::Idle);
    assert_eq!(after_wait(Ok(2)), AfterWait::Serve);
    assert_eq!(after_wait(Err(Errno::EINTR)), AfterWait::Again);
    assert_eq!(after_wait(Err(Errno::EBADF)), AfterWait::CleanUp);

    let (mut state, local, _) = tcp_proxy();
    state.refresh_nsockhandle();
    assert_eq!(state.wait_range(), Some(4));
    assert!(state.status_due(500, 1500));
    assert!(!state.status_due(500, 1499));
    state.status_dirty = false;
    assert!(!state.status_due(500, 1500));
    assert_eq!(state.cleanup_invalid_fds(&vec![3], 0), 1);
    assert_eq!(state.ports.get(local).unwrap().sock, -1);
    assert_eq!(state.wait_range(), None);
}
