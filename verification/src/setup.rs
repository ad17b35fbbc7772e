//! Setting the proxy up: its local port, its script port and its remote, and how they are
//! joined before the first client comes.
use vstd::prelude::*;
use crate::cli::{
    after_either, host_and_port, or_default, port_number, remote_endpoint, ScanView, DEFAULT_BAUD,
    DEFAULT_CONSOLE_PORT, DEFAULT_GDB_PORT,
};
use crate::device::DEFAULT_SERIAL_DEVICE;
use crate::endpoint::{local_parts, remote_parts, RemoteKindView};
use crate::fdset::selectable;
use crate::number::{decimal, is_digit, lemma_decimal, lemma_decimal_reads_back};
use crate::port::{
    PortClass, PortId, PortType, PortView, RawFd, SockAddr, SCRIPT_READ_WRITE,
};
use crate::state::{script_ref_ok, ProxyState, ProxyView, SERIAL_LIVENESS_INTERVAL};
use crate::text::{
    has_prefix, lemma_first_at_concat, lemma_first_at_none, split_first, split_once,
};

verus! {

/// The name of every local port.
pub const LOCAL_NAME: &'static str = "localhost";

impl ProxyView {
    /// The state with a local port or script port on `sock`.
    pub open spec fn local_added(
        self,
        port_type: PortType,
        is_script: bool,
        sock: RawFd,
    ) -> ProxyView {
        let cls = if is_script {
            PortClass::Script
        } else {
            PortClass::Local
        };
        self.allocated(port_type, cls).with_port(
            self.next_id,
            PortView {
                name: LOCAL_NAME@,
                is_local: true,
                sock,
                ..PortView::fresh(port_type, cls)
            },
        )
    }

    /// The state in which the script port `script` serves the local port `local`. A local
    /// port without connections is the local end of the script port at once.
    pub open spec fn script_added(
        self,
        local: PortId,
        script: PortId,
        break_port: bool,
    ) -> ProxyView {
        let sp = self.ports[script];
        let always = self.ports[local].port_type == PortType::Udp || self.ports[local].port_type
            == PortType::StdinOut;
        let s = self.with_port(
            script,
            PortView {
                script_in_use: sp.script_in_use || always,
                lscript: if always {
                    Some(local)
                } else {
                    sp.lscript
                },
                lmode: 0,
                rmode: SCRIPT_READ_WRITE,
                break_port,
                ..sp
            },
        );
        let s1 = s.with_port(local, PortView { script_ref: Some(script), ..s.ports[local] });
        ProxyView { rds: s1.rds.insert(sp.sock), ..s1 }
    }

    /// The state with the serial device `path` as the remote, opened at the time `now`.
    pub open spec fn serial_added(
        self,
        path: Seq<char>,
        sock: RawFd,
        baud: Option<u32>,
        now: u64,
    ) -> ProxyView {
        let s = self.allocated(PortType::Rs232, PortClass::Remote).with_port(
            self.next_id,
            PortView {
                name: path,
                sock,
                serial_baud: baud,
                serial_config_path: Some(path),
                serial_check_at: Some((now + SERIAL_LIVENESS_INTERVAL) as u64),
                ..PortView::fresh(PortType::Rs232, PortClass::Remote)
            },
        );
        ProxyView { rds: s.rds.insert(sock), ..s }.refreshed()
    }

    /// The state with the FIFO `path` as the remote.
    pub open spec fn fifo_added(self, host: Seq<char>, path: Seq<char>, sock: RawFd) -> ProxyView {
        let s = self.allocated(PortType::FifoCon, PortClass::Remote).with_port(
            self.next_id,
            PortView {
                name: host,
                sock,
                ..PortView::fresh(PortType::FifoCon, PortClass::Remote)
            },
        );
        ProxyView { rds: s.rds.insert(sock), fifo_con_file: Some(path), ..s }.refreshed()
    }

    /// The state with a socket as the remote; without `sock` none is open yet.
    pub open spec fn remote_added(
        self,
        port_type: PortType,
        host: Seq<char>,
        addr: SockAddr,
        sock: Option<RawFd>,
    ) -> ProxyView {
        let fresh = PortView::fresh(port_type, PortClass::Remote);
        let s = self.allocated(port_type, PortClass::Remote).with_port(
            self.next_id,
            PortView {
                name: host,
                port_num: addr.port,
                serv_addr: Some(addr),
                sock: match sock {
                    Some(sock) => sock,
                    None => fresh.sock,
                },
                ..fresh
            },
        );
        match sock {
            Some(sock) => ProxyView { rds: s.rds.insert(sock), ..s }.refreshed(),
            None => s.refreshed(),
        }
    }

    /// The state in which the clients of the local port `local` are joined to `remote`. A
    /// remote that outlives its connections serves script clients at once.
    pub open spec fn joined(self, local: PortId, remote: PortId) -> ProxyView {
        let s = ProxyView { local_port_id: local, remote_port_id: remote, ..self }.with_port(
            local,
            PortView { remote: Some(remote), ..self.ports[local] },
        );
        let rtype = s.ports[remote].port_type;
        match s.ports[local].script_ref {
            Some(sr) => if rtype == PortType::Udp || rtype == PortType::Listen || rtype
                == PortType::FifoCon || rtype == PortType::Rs232 {
                s.remote_end(sr, remote).scripted(remote, sr, SCRIPT_READ_WRITE)
            } else {
                s
            },
            None => s,
        }
    }
}

/// What the status display shows of a serial line that is split.
pub struct SerialSplitConfig {
    pub device: String,
    pub baud: String,
    pub console_port: u16,
    pub gdb_port: u16,
}

/// What is configured for the running proxy: the split serial line, if it splits one.
pub struct RuntimeConfig {
    pub serial_split: Option<SerialSplitConfig>,
}

/// The device and the rate in the remote endpoint `remote`.
pub open spec fn device_and_baud(remote: Seq<char>) -> (Seq<char>, Seq<char>) {
    match split_first(remote, ',') {
        Some((device, baud)) => (device, baud),
        None => (remote, "default"@),
    }
}

impl ProxyView {
    /// The script port of the local port, where the proxy splits a serial line: the remote is
    /// a serial device and the script port a debugger port.
    pub open spec fn split_script(self) -> Option<PortId> {
        if self.has(self.local_port_id) && self.has(self.remote_port_id) {
            match self.ports[self.local_port_id].script_ref {
                Some(sr) => if self.has(sr) && self.ports[self.remote_port_id].port_type
                    == PortType::Rs232 && self.ports[sr].break_port {
                    Some(sr)
                } else {
                    None
                },
                None => None,
            }
        } else {
            None
        }
    }
}

impl RuntimeConfig {
    /// What is configured for `state`, whose remote endpoint is `remote`.
    pub fn from_state(state: &ProxyState, remote: &str) -> (r: RuntimeConfig)
        ensures
            match r.serial_split {
                Some(c) => {
                    &&& state@.split_script() is Some
                    &&& (c.device@, c.baud@) == device_and_baud(remote@)
                    &&& c.console_port == state@.ports[state@.local_port_id].port_num
                    &&& c.gdb_port == state@.ports[state@.split_script()->0].port_num
                },
                None => state@.split_script() is None,
            },
    {
        let none = RuntimeConfig { serial_split: None };
        let (script_ref, console_port) = match state.ports.get(state.local_port_id) {
            Some(local) => (local.script_ref, local.port_num),
            None => {
                return none;
            },
        };
        let serial = match state.ports.get(state.remote_port_id) {
            Some(remote) => remote.port_type == PortType::Rs232,
            None => {
                return none;
            },
        };
        let sr = match script_ref {
            Some(sr) => sr,
            None => {
                return none;
            },
        };
        match state.ports.get(sr) {
            Some(sp) => {
                if !serial || !sp.break_port {
                    return none;
                }
                let (device, baud) = match split_once(remote, ',') {
                    Some((device, baud)) => (device.to_owned(), baud.to_owned()),
                    None => (remote.to_owned(), "default".to_owned()),
                };
                RuntimeConfig {
                    serial_split: Some(
                        SerialSplitConfig { device, baud, console_port, gdb_port: sp.port_num },
                    ),
                }
            },
            None => none,
        }
    }
}

impl ProxyState {
    /// Adds a local port or script port on `sock`.
    pub fn setup_local_port(&mut self, port_type: PortType, is_script: bool, sock: RawFd) -> (id: PortId)
        requires
            old(self).wf(),
            old(self).next_id < usize::MAX,
            selectable(sock),
        ensures
            final(self).wf(),
            id == old(self)@.next_id,
            final(self)@ == old(self)@.local_added(port_type, is_script, sock),
    {
        let cls = if is_script {
            PortClass::Script
        } else {
            PortClass::Local
        };
        let id = self.alloc_port(port_type, cls);
        if let Some(p) = self.ports.get_mut(id) {
            p.name = LOCAL_NAME.to_owned();
            p.is_local = true;
            p.sock = sock;
        }
        id
    }

    /// Notes the port number of the port `id`.
    pub fn set_port_num(&mut self, id: PortId, port_num: u16)
        requires
            old(self).wf(),
            old(self)@.has(id),
        ensures
            final(self).wf(),
            final(self)@ == old(self)@.with_port(
                id,
                PortView { port_num, ..old(self)@.ports[id] },
            ),
    {
        if let Some(p) = self.ports.get_mut(id) {
            p.port_num = port_num;
        }
    }

    /// Waits on the descriptor of the port `id`.
    pub fn watch_port(&mut self, id: PortId)
        requires
            old(self).wf(),
            old(self)@.has(id),
            selectable(old(self)@.ports[id].sock),
        ensures
            final(self).wf(),
            final(self)@ == (ProxyView {
                rds: old(self)@.rds.insert(old(self)@.ports[id].sock),
                ..old(self)@
            }),
    {
        if let Some(p) = self.ports.get(id) {
            let sock = p.sock;
            self.master_rds.insert(sock);
        }
    }

    /// Lets the script port `script` serve the local port `local`.
    pub fn add_script(&mut self, local: PortId, script: PortId, break_port: bool)
        requires
            old(self).wf(),
            old(self)@.has(local),
            old(self)@.has(script),
            local != script,
            old(self)@.ports[script].cls == PortClass::Script,
            selectable(old(self)@.ports[script].sock),
        ensures
            final(self).wf(),
            final(self)@ == old(self)@.script_added(local, script, break_port),
    {
        let always = match self.ports.get(local) {
            Some(p) => p.port_type == PortType::Udp || p.port_type == PortType::StdinOut,
            None => false,
        };
        self.set_script_modes(local, script, break_port, always);
        self.set_script_ref(local, script);
        self.watch_port(script);
    }

    fn set_script_modes(&mut self, local: PortId, script: PortId, break_port: bool, always: bool)
        requires
            old(self).wf(),
            old(self)@.has(script),
        ensures
            final(self).wf(),
            final(self)@ == old(self)@.with_port(
                script,
                PortView {
                    script_in_use: old(self)@.ports[script].script_in_use || always,
                    lscript: if always {
                        Some(local)
                    } else {
                        old(self)@.ports[script].lscript
                    },
                    lmode: 0,
                    rmode: SCRIPT_READ_WRITE,
                    break_port,
                    ..old(self)@.ports[script]
                },
            ),
    {
        if let Some(sp) = self.ports.get_mut(script) {
            if always {
                sp.script_in_use = true;
                sp.lscript = Some(local);
            }
            sp.lmode = 0;
            sp.rmode = SCRIPT_READ_WRITE;
            sp.break_port = break_port;
        }
    }

    fn set_script_ref(&mut self, id: PortId, sr: PortId)
        requires
            old(self).wf(),
            old(self)@.has(id),
            script_ref_ok(old(self)@.ports, Some(sr)),
        ensures
            final(self).wf(),
            final(self)@ == old(self)@.with_port(
                id,
                PortView { script_ref: Some(sr), ..old(self)@.ports[id] },
            ),
    {
        if let Some(p) = self.ports.get_mut(id) {
            p.script_ref = Some(sr);
        }
    }

    /// Adds the serial device `path` as the remote, opened at the time `now`.
    pub fn setup_serial_remote(
        &mut self,
        path: &str,
        sock: RawFd,
        baud: Option<u32>,
        now: u64,
    ) -> (id: PortId)
        requires
            old(self).wf(),
            old(self).next_id < usize::MAX,
            selectable(sock),
            now + SERIAL_LIVENESS_INTERVAL <= u64::MAX,
        ensures
            final(self).wf(),
            id == old(self)@.next_id,
            final(self)@ == old(self)@.serial_added(path@, sock, baud, now),
    {
        let id = self.alloc_port(PortType::Rs232, PortClass::Remote);
        if let Some(p) = self.ports.get_mut(id) {
            p.name = path.to_owned();
            p.sock = sock;
            p.serial_baud = baud;
            p.serial_config_path = Some(path.to_owned());
            p.serial_check_at = Some(now + SERIAL_LIVENESS_INTERVAL);
        }
        self.master_rds.insert(sock);
        self.refresh_nsockhandle();
        id
    }

    /// Adds the FIFO `path` as the remote.
    pub fn setup_fifo_remote(&mut self, host: &str, path: &str, sock: RawFd) -> (id: PortId)
        requires
            old(self).wf(),
            old(self).next_id < usize::MAX,
            selectable(sock),
        ensures
            final(self).wf(),
            id == old(self)@.next_id,
            final(self)@ == old(self)@.fifo_added(host@, path@, sock),
    {
        let id = self.alloc_port(PortType::FifoCon, PortClass::Remote);
        if let Some(p) = self.ports.get_mut(id) {
            p.name = host.to_owned();
            p.sock = sock;
        }
        self.fifo_con_file = Some(path.to_owned());
        self.master_rds.insert(sock);
        self.refresh_nsockhandle();
        id
    }

    /// Adds a socket as the remote; without `sock` none is open yet.
    pub fn setup_remote_port(
        &mut self,
        port_type: PortType,
        host: &str,
        addr: SockAddr,
        sock: Option<RawFd>,
    ) -> (id: PortId)
        requires
            old(self).wf(),
            old(self).next_id < usize::MAX,
            sock matches Some(fd) ==> selectable(fd),
        ensures
            final(self).wf(),
            id == old(self)@.next_id,
            final(self)@ == old(self)@.remote_added(port_type, host@, addr, sock),
    {
        let id = self.alloc_port(port_type, PortClass::Remote);
        if let Some(p) = self.ports.get_mut(id) {
            p.name = host.to_owned();
            p.port_num = addr.port;
            p.serv_addr = Some(addr);
            if let Some(fd) = sock {
                p.sock = fd;
            }
        }
        if let Some(fd) = sock {
            self.master_rds.insert(fd);
        }
        self.refresh_nsockhandle();
        id
    }

    fn set_remote(&mut self, local: PortId, remote: PortId)
        requires
            old(self).wf(),
            old(self)@.has(local),
        ensures
            final(self).wf(),
            final(self)@ == old(self)@.with_port(
                local,
                PortView { remote: Some(remote), ..old(self)@.ports[local] },
            ),
    {
        if let Some(p) = self.ports.get_mut(local) {
            p.remote = Some(remote);
        }
    }

    fn end_script_at(&mut self, sr: PortId, remote: PortId)
        requires
            old(self).wf(),
            old(self)@.has(remote),
            script_ref_ok(old(self)@.ports, Some(sr)),
        ensures
            final(self).wf(),
            final(self)@ == old(self)@.remote_end(sr, remote).scripted(
                remote,
                sr,
                SCRIPT_READ_WRITE,
            ),
    {
        if let Some(sp) = self.ports.get_mut(sr) {
            sp.rscript = Some(remote);
            sp.script_in_use = true;
        }
        if let Some(p) = self.ports.get_mut(remote) {
            p.script_ref = Some(sr);
            p.mode = SCRIPT_READ_WRITE;
        }
    }

    /// Joins the clients of the local port `local` to `remote`.
    pub fn join(&mut self, local: PortId, remote: PortId)
        requires
            old(self).wf(),
            old(self)@.has(local),
            old(self)@.has(remote),
        ensures
            final(self).wf(),
            final(self)@ == old(self)@.joined(local, remote),
    {
        self.local_port_id = local;
        self.remote_port_id = remote;
        self.set_remote(local, remote);
        let script_ref = match self.ports.get(local) {
            Some(p) => p.script_ref,
            None => None,
        };
        proof {
            assert(script_ref_ok(self@.ports, self@.ports[local].script_ref));
        }
        let stays = match self.ports.get(remote) {
            Some(p) => p.port_type == PortType::Udp || p.port_type == PortType::Listen
                || p.port_type == PortType::FifoCon || p.port_type == PortType::Rs232,
            None => false,
        };
        if let Some(sr) = script_ref {
            if stays {
                self.end_script_at(sr, remote);
            }
        }
    }
}

proof fn lemma_decimal_text(n: nat)
    requires
        n <= 65535,
    ensures
        port_number(decimal(n)) == Some(n as u16),
        forall|i: int|
            0 <= i < decimal(n).len() ==> '0' <= #[trigger] decimal(n)[i] <= '9',
{
    let d = decimal(n);
    lemma_decimal(n);
    lemma_decimal_reads_back(n, 65535);
    assert forall|i: int| 0 <= i < d.len() implies '0' <= #[trigger] d[i] <= '9' by {
        assert(is_digit(d[i], 10));
    }
    assert(!has_prefix(d, "0x"@)) by {
        reveal_strlit("0x");
        if has_prefix(d, "0x"@) {
            assert(d.take(2)[1] == "0x"@[1]);
            assert(d[1] == 'x');
        }
    }
}

/// What the subcommand `serial-split` asks for is what the setup reads: the console port and
/// the debugger port, as a debugger port, and the device with its rate.
pub proof fn lemma_serial_split_is_understood(c: ScanView, default_device_exists: bool)
    requires
        c.serial_split(default_device_exists) is Ok,
    ensures
        ({
            let args = c.serial_split(default_device_exists)->Ok_0.proxy_args;
            let console = port_number(or_default(c.console_port, DEFAULT_CONSOLE_PORT@))->0;
            let gdb = port_number(or_default(c.gdb_port, DEFAULT_GDB_PORT@))->0;
            let device = or_default(c.device, DEFAULT_SERIAL_DEVICE@);
            let baud = or_default(c.baud, DEFAULT_BAUD@);
            let (main, script, break_port) = local_parts(args[0]);
            &&& args.len() == 3
            &&& port_number(main) == Some(console)
            &&& script is Some && port_number(script->0) == Some(gdb)
            &&& break_port
            &&& has_prefix(device, "/"@) && !device.contains(',') ==> remote_parts(args[2]) == (
            RemoteKindView::Serial { path: device, baud: Some(baud) })
            &&& !device.contains(',') ==> device_and_baud(args[2]) == (device, baud)
        }),
{
    let args = c.serial_split(default_device_exists)->Ok_0.proxy_args;
    let console = port_number(or_default(c.console_port, DEFAULT_CONSOLE_PORT@))->0;
    let gdb = port_number(or_default(c.gdb_port, DEFAULT_GDB_PORT@))->0;
    let device = or_default(c.device, DEFAULT_SERIAL_DEVICE@);
    let baud = or_default(c.baud, DEFAULT_BAUD@);
    let d1 = decimal(console as nat);
    let d2 = decimal(gdb as nat);
    lemma_decimal_text(console as nat);
    lemma_decimal_text(gdb as nat);
    reveal_strlit("^");
    reveal_strlit(",");
    assert("^"@ =~= seq!['^']);
    assert(","@ =~= seq![',']);
    let local = d1 + seq!['^'] + d2;
    assert(args[0] == local);
    assert forall|i: int| 0 <= i < local.len() implies local[i] != '+' by {
        if i < d1.len() {
            assert(local[i] == d1[i]);
        } else if i > d1.len() {
            assert(local[i] == d2[i - d1.len() - 1]);
        }
    }
    lemma_first_at_none(local, '+', 0);
    lemma_first_at_concat(d1, '^', d2, 0);
    assert(local.take(d1.len() as int) =~= d1);
    assert(local.skip(d1.len() as int + 1) =~= d2);
    if !device.contains(',') {
        let remote = device + seq![','] + baud;
        assert(args[2] == remote);
        lemma_first_at_concat(device, ',', baud, 0);
        assert(remote.take(device.len() as int) =~= device);
        assert(remote.skip(device.len() as int + 1) =~= baud);
        if has_prefix(device, "/"@) {
            reveal_strlit("/");
            reveal_strlit("udp:");
            reveal_strlit("tcplisten:");
            reveal_strlit("fifocon:");
            assert(device.take(1)[0] == '/');
            assert(remote[0] == '/');
            assert(remote.take(1) =~= "/"@);
            if has_prefix(remote, "udp:"@) {
                assert(remote.take(4)[0] == 'u');
            }
            if has_prefix(remote, "tcplisten:"@) {
                assert(remote.take(10)[0] == 't');
            }
            if has_prefix(remote, "fifocon:"@) {
                assert(remote.take(8)[0] == 'f');
            }
        }
    }
}

proof fn lemma_prefix_skip(prefix: Seq<char>, rest: Seq<char>)
    ensures
        has_prefix(prefix + rest, prefix),
        (prefix + rest).skip(prefix.len() as int) == rest,
{
    assert((prefix + rest).take(prefix.len() as int) =~= prefix);
    assert((prefix + rest).skip(prefix.len() as int) =~= rest);
}

/// Every form of remote endpoint that the command line takes is set up as what it names: TCP
/// to a numbered port, UDP, a serial device by its path, a listening socket, or a FIFO.
pub proof fn lemma_remote_forms_are_understood(remote: Seq<char>)
    requires
        remote_endpoint(remote, None) is Ok,
    ensures
        ({
            let endpoint = remote_endpoint(remote, None)->Ok_0.1;
            let made = remote_parts(endpoint);
            if has_prefix(remote, "tcp:"@) {
                endpoint.len() > 0 && '0' <= endpoint[0] <= '9' ==> made == (RemoteKindView::Tcp {
                    port: endpoint,
                })
            } else if has_prefix(remote, "udp:"@) {
                made is Udp
            } else if has_prefix(remote, "serial:"@) {
                has_prefix(endpoint, "/"@) ==> made is Serial
            } else if has_prefix(remote, "tcplisten:"@) {
                made is Listen
            } else {
                made == (RemoteKindView::FifoCon { path: remote.skip("fifocon:"@.len() as int) })
            }
        }),
{
    reveal_strlit("tcp://");
    reveal_strlit("tcp:");
    reveal_strlit("udp://");
    reveal_strlit("udp:");
    reveal_strlit("serial:");
    reveal_strlit("tcplisten:");
    reveal_strlit("fifocon:");
    reveal_strlit("/");
    reveal_strlit("C");
    reveal_strlit("c");
    let endpoint = remote_endpoint(remote, None)->Ok_0.1;
    if has_prefix(remote, "tcp://"@) {
        assert(remote.take(6)[0] == 't' && remote.take(6)[1] == 'c' && remote.take(6)[2] == 'p'
            && remote.take(6)[3] == ':');
        assert(remote.take(4) =~= "tcp:"@);
    }
    if has_prefix(remote, "udp://"@) {
        assert(remote.take(6)[0] == 'u' && remote.take(6)[1] == 'd' && remote.take(6)[2] == 'p'
            && remote.take(6)[3] == ':');
        assert(remote.take(4) =~= "udp:"@);
    }
    if has_prefix(remote, "tcp:"@) {
        assert(remote.take(4)[0] == 't');
        if endpoint.len() > 0 && '0' <= endpoint[0] <= '9' {
            assert(!has_prefix(endpoint, "udp:"@)) by {
                if has_prefix(endpoint, "udp:"@) {
                    assert(endpoint.take(4)[0] == 'u');
                }
            }
            assert(!has_prefix(endpoint, "tcplisten:"@)) by {
                if has_prefix(endpoint, "tcplisten:"@) {
                    assert(endpoint.take(10)[0] == 't');
                }
            }
            assert(!has_prefix(endpoint, "fifocon:"@)) by {
                if has_prefix(endpoint, "fifocon:"@) {
                    assert(endpoint.take(8)[0] == 'f');
                }
            }
            assert(!has_prefix(endpoint, "/"@) && !has_prefix(endpoint, "C"@) && !has_prefix(
                endpoint,
                "c"@,
            )) by {
                assert(endpoint.take(1)[0] == endpoint[0]);
            }
        }
    } else if has_prefix(remote, "udp:"@) {
        assert(remote.take(4)[0] == 'u');
        let rest = after_either(remote, "udp://"@, "udp:"@)->0;
        let ports = host_and_port(rest, "UDP remote endpoint"@)->Ok_0.1;
        lemma_prefix_skip("udp:"@, ports);
    } else if has_prefix(remote, "serial:"@) {
        if has_prefix(endpoint, "/"@) {
            assert(endpoint.take(1)[0] == '/');
            assert(!has_prefix(endpoint, "udp:"@)) by {
                if has_prefix(endpoint, "udp:"@) {
                    assert(endpoint.take(4)[0] == 'u');
                }
            }
            assert(!has_prefix(endpoint, "tcplisten:"@)) by {
                if has_prefix(endpoint, "tcplisten:"@) {
                    assert(endpoint.take(10)[0] == 't');
                }
            }
            assert(!has_prefix(endpoint, "fifocon:"@)) by {
                if has_prefix(endpoint, "fifocon:"@) {
                    assert(endpoint.take(8)[0] == 'f');
                }
            }
        }
    } else if has_prefix(remote, "tcplisten:"@) {
        let port = host_and_port(
            remote.skip("tcplisten:"@.len() as int),
            "tcplisten remote endpoint"@,
        )->Ok_0.1;
        lemma_prefix_skip("tcplisten:"@, port);
        assert(endpoint[0] == 't');
        if has_prefix(endpoint, "udp:"@) {
            assert(endpoint.take(4)[0] == 'u');
        }
    } else {
        let rest = remote.skip("fifocon:"@.len() as int);
        lemma_prefix_skip("fifocon:"@, rest);
        assert(endpoint[0] == 'f');
        if has_prefix(endpoint, "udp:"@) {
            assert(endpoint.take(4)[0] == 'u');
        }
        if has_prefix(endpoint, "tcplisten:"@) {
            assert(endpoint.take(10)[0] == 't');
        }
    }
}

} // verus!
