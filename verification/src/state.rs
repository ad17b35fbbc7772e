//! The state of the proxy: its ports, the descriptors it waits on, and its settings.
use vstd::prelude::*;
use crate::fdset::{selectable, FdSet, FD_SETSIZE};
use crate::port::{Port, PortClass, PortId, PortType, PortView, RawFd, NO_FD};
use crate::splitter::{GdbSplitter, GdbView};
use crate::table::PortTable;

verus! {

/// The most bytes that wait to be written to one port.
pub const MAX_PENDING_WRITE: usize = 1048576;

/// A console-selection line of this many bytes is dropped.
pub const MAX_FIFO_BUF: usize = 50;

/// Milliseconds from one attempt to reopen a serial device to the next.
pub const SERIAL_RECONNECT_INTERVAL: u64 = 1000;

/// Milliseconds from one probe of an open serial device to the next.
pub const SERIAL_LIVENESS_INTERVAL: u64 = 1000;

/// What the command line can set of the proxy's behaviour.
pub struct Settings {
    pub debug: bool,
    pub logchar: bool,
    pub break_on_connect: bool,
    pub gdb_split: bool,
    pub telnet_negotiation: bool,
    pub break_str: Vec<u8>,
}

/// The abstract value of [`Settings`].
#[verifier::ext_equal]
pub struct SettingsView {
    pub debug: bool,
    pub logchar: bool,
    pub break_on_connect: bool,
    pub gdb_split: bool,
    pub telnet_negotiation: bool,
    pub break_str: Seq<u8>,
}

impl View for Settings {
    type V = SettingsView;

    open spec fn view(&self) -> SettingsView {
        SettingsView {
            debug: self.debug,
            logchar: self.logchar,
            break_on_connect: self.break_on_connect,
            gdb_split: self.gdb_split,
            telnet_negotiation: self.telnet_negotiation,
            break_str: self.break_str@,
        }
    }
}

impl SettingsView {
    /// The settings without any option: the break sequence is a Telnet break followed by
    /// the SysRq key `g`.
    pub open spec fn defaults() -> SettingsView {
        SettingsView {
            debug: false,
            logchar: false,
            break_on_connect: true,
            gdb_split: true,
            telnet_negotiation: false,
            break_str: seq![0xffu8, 0xf3u8, 0x67u8],
        }
    }
}

impl Settings {
    /// The settings without any option.
    pub fn new() -> (s: Settings)
        ensures
            s@ == SettingsView::defaults(),
    {
        let s = Settings {
            debug: false,
            logchar: false,
            break_on_connect: true,
            gdb_split: true,
            telnet_negotiation: false,
            break_str: vec![0xff, 0xf3, 0x67],
        };
        assert(s@.break_str =~= seq![0xffu8, 0xf3u8, 0x67u8]);
        s
    }
}

/// What is to be done to a descriptor that the proxy has let go of, in the order given.
#[derive(Debug, Clone, Copy, PartialEq, Eq, Structural)]
pub enum Effect {
    /// Shut the socket down in both directions.
    Shutdown(RawFd),
    /// Close the descriptor.
    Close(RawFd),
}

/// The state of the proxy.
pub struct ProxyState {
    pub ports: PortTable,
    pub next_id: PortId,
    pub master_rds: FdSet,
    pub master_wds: FdSet,
    pub nsockhandle: i32,
    pub local_port_id: PortId,
    pub remote_port_id: PortId,
    pub settings: Settings,
    pub gdb: GdbSplitter,
    pub listen_fd: RawFd,
    pub fifo_con_fd: RawFd,
    pub fifo_con_file: Option<String>,
    pub fifo_line: Vec<u8>,
    pub status_dirty: bool,
    pub status_line_count: usize,
    /// Descriptors to shut down or close before anything else is done.
    pub effects: Vec<Effect>,
}

/// The abstract value of a [`ProxyState`].
pub struct ProxyView {
    pub ports: Map<PortId, PortView>,
    pub next_id: PortId,
    pub rds: Set<RawFd>,
    pub wds: Set<RawFd>,
    pub nsockhandle: i32,
    pub local_port_id: PortId,
    pub remote_port_id: PortId,
    pub settings: SettingsView,
    pub gdb: GdbView,
    pub listen_fd: RawFd,
    pub fifo_con_fd: RawFd,
    pub fifo_con_file: Option<Seq<char>>,
    pub fifo_line: Seq<u8>,
    pub status_dirty: bool,
    pub status_line_count: usize,
    pub effects: Seq<Effect>,
}

impl View for ProxyState {
    type V = ProxyView;

    open spec fn view(&self) -> ProxyView {
        ProxyView {
            ports: self.ports@,
            next_id: self.next_id,
            rds: self.master_rds@,
            wds: self.master_wds@,
            nsockhandle: self.nsockhandle,
            local_port_id: self.local_port_id,
            remote_port_id: self.remote_port_id,
            settings: self.settings@,
            gdb: self.gdb@,
            listen_fd: self.listen_fd,
            fifo_con_fd: self.fifo_con_fd,
            fifo_con_file: match self.fifo_con_file {
                Some(path) => Some(path@),
                None => None,
            },
            fifo_line: self.fifo_line@,
            status_dirty: self.status_dirty,
            status_line_count: self.status_line_count,
            effects: self.effects@,
        }
    }
}

/// `fd` is either none or one that `select` can wait on.
pub open spec fn fd_ok(fd: RawFd) -> bool {
    NO_FD <= fd < FD_SETSIZE
}

/// What holds of every port: its descriptor is in range, its Telnet state is that of an
/// unfinished command, and bytes only wait for a descriptor that is there, up to the limit.
pub open spec fn port_ok(p: PortView) -> bool {
    &&& fd_ok(p.sock)
    &&& p.in_iac <= 2
    &&& p.tx_buf.len() <= MAX_PENDING_WRITE
    &&& (p.tx_buf.len() > 0 || p.connecting) ==> selectable(p.sock)
}

/// A reference to a script port leads to one.
pub open spec fn script_ref_ok(ports: Map<PortId, PortView>, script_ref: Option<PortId>) -> bool {
    match script_ref {
        Some(sr) => ports.dom().contains(sr) && ports[sr].cls == PortClass::Script,
        None => true,
    }
}

/// What holds of the ports between any two operations: there are finitely many, with
/// identifiers below `next_id`, each is sound, and script ports that are referred to exist.
pub open spec fn ports_ok(ports: Map<PortId, PortView>, next_id: PortId) -> bool {
    &&& ports.dom().finite()
    &&& forall|id: PortId| #[trigger]
        ports.dom().contains(id) ==> id < next_id && port_ok(ports[id])
    &&& forall|id: PortId|
        ports.dom().contains(id) ==> script_ref_ok(ports, #[trigger] ports[id].script_ref)
}

/// The sum, or the largest counter value where the sum is beyond it.
pub open spec fn saturated(count: u64, more: int) -> u64 {
    if count + more > u64::MAX {
        u64::MAX
    } else {
        (count + more) as u64
    }
}

/// `m` is the highest descriptor of any port, or -1 where no port has one.
pub open spec fn is_top_fd(ports: Map<PortId, PortView>, m: int) -> bool {
    &&& m >= -1
    &&& forall|id: PortId| ports.dom().contains(id) ==> (#[trigger] ports[id]).sock <= m
    &&& m == -1 || exists|id: PortId| ports.dom().contains(id) && (#[trigger] ports[id]).sock == m
}

/// The highest descriptor of any port, or -1 where no port has one.
pub open spec fn top_fd(ports: Map<PortId, PortView>) -> int {
    choose|m: int| is_top_fd(ports, m)
}

/// There is one highest descriptor.
pub proof fn lemma_top_fd(ports: Map<PortId, PortView>, m: int)
    requires
        is_top_fd(ports, m),
    ensures
        top_fd(ports) == m,
{
    let t = top_fd(ports);
    assert(is_top_fd(ports, t));
}

impl ProxyView {
    /// There is a port `id`.
    pub open spec fn has(self, id: PortId) -> bool {
        self.ports.dom().contains(id)
    }

    /// The state with the port `id` replaced by `p`.
    pub open spec fn with_port(self, id: PortId, p: PortView) -> ProxyView {
        ProxyView { ports: self.ports.insert(id, p), ..self }
    }

    /// The state with the status display out of date.
    pub open spec fn dirty(self) -> ProxyView {
        ProxyView { status_dirty: true, ..self }
    }

    /// The state with the range of descriptors to wait on brought up to date.
    pub open spec fn refreshed(self) -> ProxyView {
        ProxyView { nsockhandle: (top_fd(self.ports) + 1) as i32, ..self }
    }

    /// The state in which `fd` is waited on for neither reading nor writing.
    pub open spec fn unwatched(self, fd: RawFd) -> ProxyView {
        ProxyView { rds: self.rds.remove(fd), wds: self.wds.remove(fd), ..self }
    }

    /// The state with `fd` to be closed, if it is a descriptor.
    pub open spec fn closing(self, fd: RawFd) -> ProxyView {
        if fd >= 0 {
            ProxyView { effects: self.effects.push(Effect::Close(fd)), ..self }
        } else {
            self
        }
    }

    /// The state with `fd` to be shut down, if it is a descriptor.
    pub open spec fn shutting(self, fd: RawFd) -> ProxyView {
        if fd >= 0 {
            ProxyView { effects: self.effects.push(Effect::Shutdown(fd)), ..self }
        } else {
            self
        }
    }

    /// The state with a fresh port under the next identifier.
    pub open spec fn allocated(self, port_type: PortType, cls: PortClass) -> ProxyView {
        ProxyView {
            ports: self.ports.insert(self.next_id, PortView::fresh(port_type, cls)),
            next_id: (self.next_id + 1) as usize,
            ..self
        }
    }

    /// The state after `n` bytes were received on the port `id`.
    pub open spec fn received(self, id: PortId, n: int) -> ProxyView {
        if self.has(id) {
            let p = self.ports[id];
            self.with_port(id, PortView { rx_bytes: saturated(p.rx_bytes, n), ..p }).dirty()
        } else {
            self
        }
    }

    /// The state after `n` bytes were sent on the port `id`.
    pub open spec fn sent(self, id: PortId, n: int) -> ProxyView {
        if self.has(id) {
            let p = self.ports[id];
            self.with_port(id, PortView { tx_bytes: saturated(p.tx_bytes, n), ..p }).dirty()
        } else {
            self
        }
    }

    /// What holds of the state between any two operations.
    pub open spec fn wf(self) -> bool {
        &&& ports_ok(self.ports, self.next_id)
        &&& self.gdb.wf()
        &&& self.fifo_line.len() < MAX_FIFO_BUF
        &&& fd_ok(self.listen_fd)
        &&& fd_ok(self.fifo_con_fd)
    }
}

impl ProxyState {
    /// What holds of the state between any two operations.
    pub open spec fn wf(&self) -> bool {
        self.ports.wf() && self@.wf()
    }

    /// The proxy before any port is set up.
    pub fn new(settings: Settings) -> (s: ProxyState)
        ensures
            s.wf(),
            s@ == (ProxyView {
                ports: Map::empty(),
                next_id: 0,
                rds: Set::empty(),
                wds: Set::empty(),
                nsockhandle: 0,
                local_port_id: 0,
                remote_port_id: 0,
                settings: settings@,
                gdb: GdbView::idle(),
                listen_fd: NO_FD,
                fifo_con_fd: NO_FD,
                fifo_con_file: None,
                fifo_line: Seq::empty(),
                status_dirty: true,
                status_line_count: 0,
                effects: Seq::empty(),
            }),
    {
        ProxyState {
            ports: PortTable::new(),
            next_id: 0,
            master_rds: FdSet::new(),
            master_wds: FdSet::new(),
            nsockhandle: 0,
            local_port_id: 0,
            remote_port_id: 0,
            settings,
            gdb: GdbSplitter::new(),
            listen_fd: NO_FD,
            fifo_con_fd: NO_FD,
            fifo_con_file: None,
            fifo_line: Vec::new(),
            status_dirty: true,
            status_line_count: 0,
            effects: Vec::new(),
        }
    }

    /// Whether there is a port `id`.
    pub fn has(&self, id: PortId) -> (r: bool)
        ensures
            r == self@.has(id),
    {
        self.ports.contains(id)
    }

    /// Adds a fresh port and returns its identifier.
    pub fn alloc_port(&mut self, port_type: PortType, cls: PortClass) -> (id: PortId)
        requires
            old(self).wf(),
            old(self).next_id < usize::MAX,
        ensures
            final(self).wf(),
            id == old(self)@.next_id,
            !old(self)@.has(id),
            final(self)@ == old(self)@.allocated(port_type, cls),
    {
        let id = self.next_id;
        self.next_id = self.next_id + 1;
        self.ports.insert_last(id, Port::new(id, port_type, cls));
        id
    }

    /// Takes the port `id` out of the table. It must not be a script port that another port
    /// is attached to.
    pub fn remove_port(&mut self, id: PortId) -> (removed: Option<Port>)
        requires
            old(self).wf(),
            forall|x: PortId|
                x != id && old(self)@.has(x) ==> (#[trigger] old(self)@.ports[x]).script_ref
                    != Some(id),
        ensures
            final(self).wf(),
            match removed {
                Some(p) => old(self)@.has(id) && p@ == old(self)@.ports[id] && final(self)@ == (
                ProxyView {
                    ports: old(self)@.ports.remove(id),
                    status_dirty: true,
                    ..old(self)@
                }),
                None => !old(self)@.has(id) && final(self)@ == old(self)@,
            },
    {
        let removed = self.ports.remove(id);
        if removed.is_some() {
            self.status_dirty = true;
        }
        proof {
            if removed is None {
                assert(self@.ports =~= old(self)@.ports);
            }
        }
        removed
    }

    /// Brings the range of descriptors to wait on up to date.
    pub fn refresh_nsockhandle(&mut self)
        requires
            old(self).wf(),
        ensures
            final(self).wf(),
            final(self)@ == old(self)@.refreshed(),
            is_top_fd(final(self)@.ports, final(self)@.nsockhandle - 1),
    {
        let ids = self.ports.ids();
        let mut max_fd: RawFd = NO_FD;
        let mut i: usize = 0;
        while i < ids.len()
            invariant
                i <= ids@.len(),
                self.wf(),
                self@ == old(self)@,
                forall|id: PortId| ids@.contains(id) <==> self@.has(id),
                fd_ok(max_fd),
                forall|k: int| 0 <= k < i ==> self@.ports[ids@[k]].sock <= max_fd,
                max_fd == -1 || exists|id: PortId|
                    self@.has(id) && (#[trigger] self@.ports[id]).sock == max_fd,
            decreases ids@.len() - i,
        {
            proof {
                assert(ids@.contains(ids@[i as int]));
            }
            if let Some(p) = self.ports.get(ids[i]) {
                if p.sock > max_fd {
                    max_fd = p.sock;
                }
            }
            i = i + 1;
        }
        self.nsockhandle = max_fd + 1;
        proof {
            assert forall|id: PortId| self@.ports.dom().contains(id) implies (
            #[trigger] self@.ports[id]).sock <= max_fd by {
                assert(ids@.contains(id));
                let k = choose|k: int| 0 <= k < ids@.len() && ids@[k] == id;
                assert(self@.ports[ids@[k]].sock <= max_fd);
            }
            lemma_top_fd(self@.ports, max_fd as int);
        }
    }

    /// Counts `bytes` received on the port `id`.
    pub fn record_rx(&mut self, id: PortId, bytes: usize)
        requires
            old(self).wf(),
        ensures
            final(self).wf(),
            final(self)@ == old(self)@.received(id, bytes as int),
    {
        if let Some(port) = self.ports.get_mut(id) {
            port.rx_bytes = port.rx_bytes.saturating_add(bytes as u64);
            self.status_dirty = true;
        }
    }

    /// Counts `bytes` sent on the port `id`.
    pub fn record_tx(&mut self, id: PortId, bytes: usize)
        requires
            old(self).wf(),
        ensures
            final(self).wf(),
            final(self)@ == old(self)@.sent(id, bytes as int),
    {
        if let Some(port) = self.ports.get_mut(id) {
            port.tx_bytes = port.tx_bytes.saturating_add(bytes as u64);
            self.status_dirty = true;
        }
    }

    /// Stops waiting on `fd`.
    pub fn unwatch(&mut self, fd: RawFd)
        requires
            old(self).wf(),
        ensures
            final(self).wf(),
            final(self)@ == old(self)@.unwatched(fd),
    {
        self.master_rds.remove(fd);
        self.master_wds.remove(fd);
    }

    /// Lets `fd` be closed, if it is a descriptor.
    pub fn close_fd(&mut self, fd: RawFd)
        requires
            old(self).wf(),
        ensures
            final(self).wf(),
            final(self)@ == old(self)@.closing(fd),
    {
        if fd >= 0 {
            self.effects.push(Effect::Close(fd));
        }
    }

    /// Lets `fd` be shut down, if it is a descriptor.
    pub fn shut_down(&mut self, fd: RawFd)
        requires
            old(self).wf(),
        ensures
            final(self).wf(),
            final(self)@ == old(self)@.shutting(fd),
    {
        if fd >= 0 {
            self.effects.push(Effect::Shutdown(fd));
        }
    }

    /// Hands out the descriptors to shut down or close, in order.
    pub fn take_effects(&mut self) -> (r: Vec<Effect>)
        requires
            old(self).wf(),
        ensures
            final(self).wf(),
            r@ == old(self)@.effects,
            final(self)@ == (ProxyView { effects: Seq::empty(), ..old(self)@ }),
    {
        let mut r: Vec<Effect> = Vec::new();
        r.append(&mut self.effects);
        assert(r@ =~= old(self)@.effects);
        r
    }
}

} // verus!
