//! What the proxy does with bytes that a port received.
use vstd::prelude::*;
use crate::bytes::copy_of;
use crate::port::{
    PortClass, PortId, PortType, PortView, SockAddr, NO_TELNET_OPTION_NEGOTIATION, SCRIPT_READ,
    SCRIPT_READ_WRITE, SCRIPT_WRITE,
};
use crate::round::{
    broadcast, lemma_broadcast_reaches_every_port, lemma_debugger_gets_the_packet, task_views,
    wrote_all, ActionView, OnFail, Round, RoundView, Task, TaskView,
};
use crate::splitter::{
    console_part, lemma_after_wf, lemma_console_loses_packets, lemma_console_or_held, packet_bytes,
    GdbView, DOLLAR, HASH, MAX_GDB_BUF, MINUS, PLUS,
};
use crate::state::{script_ref_ok, ProxyState, ProxyView, SERIAL_RECONNECT_INTERVAL};

verus! {

/// How a port that is ready to be read is served.
#[derive(Debug, Clone, Copy, PartialEq, Eq, Structural)]
pub enum ReadKind {
    /// Not at all.
    Nothing,
    /// A client of the local port to accept.
    LocalAccept,
    /// Data on a local port that has no connections.
    LocalData,
    /// A client of the script port to accept.
    ScriptAccept,
    /// A script port that cannot have clients, because it is not a TCP port.
    ScriptUnsupported,
    /// Data from a script client.
    ScriptClient,
    /// A connection from the remote side to accept.
    RemoteAccept,
    /// A console selection on the FIFO.
    FifoSelection,
    /// Data from a connection or from the remote.
    RemotePort,
}

impl ProxyView {
    /// How the port `id` is served when it is ready to be read.
    pub open spec fn read_kind(self, id: PortId) -> ReadKind {
        let p = self.ports[id];
        if !self.has(id) {
            ReadKind::Nothing
        } else {
            match p.cls {
                PortClass::Local => if p.port_type == PortType::Tcp {
                    ReadKind::LocalAccept
                } else if p.port_type == PortType::Udp || p.port_type == PortType::StdinOut {
                    ReadKind::LocalData
                } else {
                    ReadKind::Nothing
                },
                PortClass::Script => if p.port_type == PortType::Tcp {
                    ReadKind::ScriptAccept
                } else {
                    ReadKind::ScriptUnsupported
                },
                PortClass::ScriptClient => ReadKind::ScriptClient,
                PortClass::Connection => ReadKind::RemotePort,
                PortClass::Remote => if p.port_type == PortType::Listen && self.listen_fd < 0 {
                    ReadKind::RemoteAccept
                } else if p.port_type == PortType::FifoCon && self.fifo_con_fd < 0 {
                    ReadKind::FifoSelection
                } else {
                    ReadKind::RemotePort
                },
            }
        }
    }

    /// The state after the port `id` received `n` bytes. A datagram port answers to where
    /// the last datagram came from.
    pub open spec fn read_from(self, id: PortId, n: int, src: Option<SockAddr>) -> ProxyView {
        if n > 0 && self.has(id) {
            let p = self.ports[id];
            let s = if p.port_type == PortType::Udp && src is Some {
                self.with_port(id, PortView { serv_addr: src, ..p })
            } else {
                self
            };
            s.received(id, n)
        } else {
            self
        }
    }

    /// The port `id` is attached to a debugger port with filtering.
    pub open spec fn splits(self, id: PortId) -> bool {
        self.settings.gdb_split && match self.ports[id].script_ref {
            Some(sr) => self.ports[sr].break_port,
            None => false,
        }
    }

    /// What the console gets with `data` from the port `id`: everything, or where the port is
    /// split everything but debugger packets, and what was held back for one and is none.
    pub open spec fn console_data(self, id: PortId, data: Seq<u8>) -> Seq<u8> {
        if self.splits(id) {
            console_part(self.gdb, data)
        } else {
            data
        }
    }

    /// The writes of `data` to the consoles `clients`; there are none where nothing is left.
    pub open spec fn console_writes(clients: Seq<PortId>, data: Seq<u8>) -> Seq<TaskView> {
        if data.len() > 0 {
            broadcast(clients, data)
        } else {
            Seq::empty()
        }
    }

    /// What the peer of the connection `id` gets of `data`. A port that shares what it
    /// receives with script clients is on the side of the remote, and its peer is a console.
    pub open spec fn peer_data(self, id: PortId, data: Seq<u8>) -> Seq<u8> {
        if self.ports[id].mode & SCRIPT_READ != 0 {
            self.console_data(id, data)
        } else {
            data
        }
    }

    /// Where `data` from the port `id` goes: from a serial device to all its clients, from
    /// a connection to its peer; then to script clients. A console gets no debugger packets
    /// where there is a debugger port with filtering.
    pub open spec fn delivery(self, id: PortId, data: Seq<u8>) -> Seq<TaskView> {
        let p = self.ports[id];
        let share = TaskView::Script { from: id, data };
        if p.is_serial_remote() {
            ProxyView::console_writes(p.clients, self.console_data(id, data)).push(
                TaskView::KillMarked { script: None },
            ).push(share)
        } else {
            let part = self.peer_data(id, data);
            match p.peer {
                Some(peer) => if self.is_open(peer) && part.len() > 0 {
                    seq![
                        TaskView::Write {
                            to: peer,
                            data: part,
                            oob: false,
                            on_fail: OnFail::Stop(id),
                        },
                        share,
                    ]
                } else {
                    seq![share]
                },
                None => seq![share],
            }
        }
    }

    /// What is done with `data` that came in on the connection or remote `id` at the time
    /// `now`; no data means that the other side is gone.
    pub open spec fn remote_read(
        self,
        id: PortId,
        data: Seq<u8>,
        src: Option<SockAddr>,
        now: u64,
    ) -> (ProxyView, RoundView) {
        let s = self.read_from(id, data.len() as int, src);
        if data.len() == 0 {
            (self.killed(id, now), RoundView::empty(true))
        } else if self.settings.telnet_negotiation {
            let iac = s.iac_result(id, data);
            let s1 = s.after_iac(id, data);
            (
                s1,
                RoundView {
                    breaks: iac.breaks,
                    tasks: if iac.out.len() == 0 {
                        Seq::empty()
                    } else {
                        s1.delivery(id, iac.out)
                    },
                    marked: Seq::empty(),
                    stop: false,
                },
            )
        } else {
            (s, RoundView::of(s.delivery(id, data)))
        }
    }

    /// The end `to` of a script port is there and takes what script clients send.
    pub open spec fn takes_script(self, to: Option<PortId>) -> bool {
        match to {
            Some(to) => self.has(to) && self.ports[to].mode & SCRIPT_WRITE != 0,
            None => false,
        }
    }

    /// The write of `data` from a script client to the port `to`, where it takes it.
    pub open spec fn script_write(self, to: Option<PortId>, data: Seq<u8>) -> Seq<TaskView> {
        if self.takes_script(to) {
            seq![
                TaskView::Write { to: to->0, data, oob: false, on_fail: OnFail::Stop(to->0) },
            ]
        } else {
            Seq::empty()
        }
    }

    /// Where `data` from the script client `id` goes: to the remote and to the local end of
    /// its script port, while that is in use.
    pub open spec fn script_delivery(self, id: PortId, data: Seq<u8>) -> Seq<TaskView> {
        match self.ports[id].script_ref {
            Some(sr) => if self.ports[sr].script_in_use {
                self.script_write(self.ports[sr].rscript, data) + self.script_write(
                    self.ports[sr].lscript,
                    data,
                )
            } else {
                Seq::empty()
            },
            None => Seq::empty(),
        }
    }

    /// The first port that what the script client `id` sends is for is there, where its
    /// script port is in use: the remote end, and the local end unless a write to the remote
    /// end comes before it.
    pub open spec fn script_end_exists(self, id: PortId) -> bool {
        match self.ports[id].script_ref {
            Some(sr) => self.ports[sr].script_in_use ==> {
                let sp = self.ports[sr];
                &&& sp.rscript matches Some(rs) ==> self.has(rs)
                &&& sp.lscript matches Some(ls) ==> self.has(ls) || self.takes_script(sp.rscript)
            },
            None => true,
        }
    }

    /// What is left of `data` from the script client `id` behind its Telnet layer, if it has
    /// one.
    pub open spec fn script_input(self, id: PortId, data: Seq<u8>) -> Seq<u8> {
        if self.ports[id].mode & NO_TELNET_OPTION_NEGOTIATION == 0 {
            self.iac_result(id, data).out
        } else {
            data
        }
    }

    /// `data` from the script client `id` can be served: nothing is left of it behind the
    /// Telnet layer, or there is a port that it is for.
    pub open spec fn script_ready(self, id: PortId, data: Seq<u8>) -> bool {
        self.script_input(id, data).len() > 0 ==> self.script_end_exists(id)
    }

    /// What is done with `data` from the script client `id` at the time `now`; no data
    /// means that the client is gone.
    pub open spec fn script_client_read(self, id: PortId, data: Seq<u8>, now: u64) -> (
        ProxyView,
        RoundView,
    ) {
        let s = self.read_from(id, data.len() as int, None);
        if data.len() == 0 {
            match self.ports[id].script_ref {
                Some(sr) => (self.script_client_killed(sr, id, now), RoundView::empty(true)),
                None => (self, RoundView::empty(true)),
            }
        } else if self.ports[id].mode & NO_TELNET_OPTION_NEGOTIATION == 0 {
            let iac = s.iac_result(id, data);
            let s1 = s.after_iac(id, data);
            (
                s1,
                RoundView {
                    breaks: iac.breaks,
                    tasks: if iac.out.len() == 0 {
                        Seq::empty()
                    } else {
                        s1.script_delivery(id, iac.out)
                    },
                    marked: Seq::empty(),
                    stop: false,
                },
            )
        } else {
            (s, RoundView::of(s.script_delivery(id, data)))
        }
    }

    /// What is done with the out-of-band `data` of the port `id` at the time `now`: it goes
    /// to the peer; a port without any is ended.
    pub open spec fn oob_read(self, id: PortId, data: Seq<u8>, now: u64) -> (ProxyView, RoundView) {
        if data.len() == 0 {
            (self.killed(id, now), RoundView::empty(true))
        } else {
            let s = self.read_from(id, data.len() as int, None);
            let tasks = match self.ports[id].peer {
                Some(peer) => if self.has(peer) {
                    seq![
                        TaskView::Write { to: peer, data, oob: true, on_fail: OnFail::Stop(id) },
                    ]
                } else {
                    Seq::empty()
                },
                None => Seq::empty(),
            };
            (s, RoundView::of(tasks))
        }
    }
}

/// A write of `data` to each of `ids`; where it fails, that port is marked.
fn broadcast_tasks(ids: &Vec<PortId>, data: &Vec<u8>) -> (r: Vec<Task>)
    ensures
        task_views(r@) == broadcast(ids@, data@),
{
    let mut tasks: Vec<Task> = Vec::new();
    let mut k: usize = 0;
    while k < ids.len()
        invariant
            k <= ids@.len(),
            tasks@.len() == k,
            forall|i: int| 0 <= i < k ==> (#[trigger] tasks@[i])@ == broadcast(ids@, data@)[i],
        decreases ids@.len() - k,
    {
        tasks.push(
            Task::Write { to: ids[k], data: copy_of(data), oob: false, on_fail: OnFail::Mark },
        );
        k = k + 1;
    }
    assert(task_views(tasks@) =~= broadcast(ids@, data@));
    tasks
}

impl ProxyState {
    /// How the port `id` is served when it is ready to be read.
    pub fn dispatch_read(&self, id: PortId) -> (r: ReadKind)
        ensures
            r == self@.read_kind(id),
    {
        match self.ports.get(id) {
            Some(p) => match p.cls {
                PortClass::Local => {
                    if p.port_type == PortType::Tcp {
                        ReadKind::LocalAccept
                    } else if p.port_type == PortType::Udp || p.port_type == PortType::StdinOut {
                        ReadKind::LocalData
                    } else {
                        ReadKind::Nothing
                    }
                },
                PortClass::Script => {
                    if p.port_type == PortType::Tcp {
                        ReadKind::ScriptAccept
                    } else {
                        ReadKind::ScriptUnsupported
                    }
                },
                PortClass::ScriptClient => ReadKind::ScriptClient,
                PortClass::Connection => ReadKind::RemotePort,
                PortClass::Remote => {
                    if p.port_type == PortType::Listen && self.listen_fd < 0 {
                        ReadKind::RemoteAccept
                    } else if p.port_type == PortType::FifoCon && self.fifo_con_fd < 0 {
                        ReadKind::FifoSelection
                    } else {
                        ReadKind::RemotePort
                    }
                },
            },
            None => ReadKind::Nothing,
        }
    }

    /// Counts `n` bytes that the port `id` received. A datagram port remembers where they
    /// came from.
    pub fn tracked_port_read(&mut self, id: PortId, n: usize, src: Option<SockAddr>)
        requires
            old(self).wf(),
        ensures
            final(self).wf(),
            final(self)@ == old(self)@.read_from(id, n as int, src),
    {
        if n > 0 {
            if let Some(port) = self.ports.get_mut(id) {
                if port.port_type == PortType::Udp && src.is_some() {
                    port.serv_addr = src;
                }
            }
            self.record_rx(id, n);
        }
        proof {
            if n > 0 && old(self)@.has(id) {
                assert(self@.ports =~= old(self)@.read_from(id, n as int, src).ports);
            } else {
                assert(self@.ports =~= old(self)@.ports);
            }
        }
    }

    fn console_data(&self, id: PortId, data: &Vec<u8>) -> (r: Vec<u8>)
        requires
            self.wf(),
            self@.has(id),
        ensures
            r@ == self@.console_data(id, data@),
    {
        let script_ref = match self.ports.get(id) {
            Some(p) => p.script_ref,
            None => None,
        };
        proof {
            assert(script_ref_ok(self@.ports, self@.ports[id].script_ref));
        }
        let break_port = match script_ref {
            Some(sr) => match self.ports.get(sr) {
                Some(sp) => sp.break_port,
                None => false,
            },
            None => false,
        };
        if self.settings.gdb_split && break_port {
            self.gdb.console_part(data)
        } else {
            copy_of(data)
        }
    }

    fn delivery(&self, id: PortId, data: Vec<u8>) -> (r: Vec<Task>)
        requires
            self.wf(),
            self@.has(id),
        ensures
            task_views(r@) == self@.delivery(id, data@),
    {
        let mut tasks: Vec<Task> = Vec::new();
        if let Some(p) = self.ports.get(id) {
            if p.is_serial_remote() {
                let part = self.console_data(id, &data);
                if part.len() > 0 {
                    tasks = broadcast_tasks(&p.clients, &part);
                }
                assert(task_views(tasks@) =~= ProxyView::console_writes(p.clients@, part@));
                tasks.push(Task::KillMarked { script: None });
            } else if let Some(peer) = p.peer {
                let part = if p.mode & SCRIPT_READ != 0 {
                    self.console_data(id, &data)
                } else {
                    copy_of(&data)
                };
                if let Some(pp) = self.ports.get(peer) {
                    if pp.sock >= 0 && part.len() > 0 {
                        tasks.push(
                            Task::Write {
                                to: peer,
                                data: part,
                                oob: false,
                                on_fail: OnFail::Stop(id),
                            },
                        );
                    }
                }
            }
        }
        tasks.push(Task::Script { from: id, data });
        assert(task_views(tasks@) =~= self@.delivery(id, data@));
        tasks
    }

    /// Takes the Telnet commands out of `data` that the port `id` received. The result is
    /// the data that is left and a round with the breaks to send.
    fn filtered(&mut self, id: PortId, data: &Vec<u8>) -> (r: (Vec<u8>, Round))
        requires
            old(self).wf(),
            old(self)@.has(id),
        ensures
            final(self).wf(),
            final(self)@ == old(self)@.after_iac(id, data@),
            r.0@ == old(self)@.iac_result(id, data@).out,
            r.1@ == (RoundView {
                breaks: old(self)@.iac_result(id, data@).breaks,
                ..RoundView::empty(false)
            }),
    {
        let (out, breaks) = self.process_iac_options(id, data);
        let round = Round { breaks, tasks: Vec::new(), marked: Vec::new(), stop: false };
        assert(task_views(round.tasks@) =~= Seq::<TaskView>::empty());
        assert(round.marked@ =~= Seq::<PortId>::empty());
        (out, round)
    }

    /// Serves the connection or remote `id`, which received `data` at the time `now`,
    /// possibly from `src`. No data means that the other side is gone.
    pub fn handle_remote_port_read(
        &mut self,
        id: PortId,
        data: Vec<u8>,
        src: Option<SockAddr>,
        now: u64,
    ) -> (r: Round)
        requires
            old(self).wf(),
            old(self)@.has(id),
            now + SERIAL_RECONNECT_INTERVAL <= u64::MAX,
        ensures
            final(self).wf(),
            (final(self)@, r@) == old(self)@.remote_read(id, data@, src, now),
    {
        if data.len() == 0 {
            self.killport(id, now);
            return Round::empty(true);
        }
        self.tracked_port_read(id, data.len(), src);
        if !self.settings.telnet_negotiation {
            return Round::of(self.delivery(id, data));
        }
        let (out, mut round) = self.filtered(id, &data);
        if out.len() > 0 {
            round.tasks = self.delivery(id, out);
        }
        round
    }

    fn takes_script(&self, to: Option<PortId>) -> (r: bool)
        ensures
            r == self@.takes_script(to),
    {
        match to {
            Some(to) => match self.ports.get(to) {
                Some(p) => p.mode & SCRIPT_WRITE != 0,
                None => false,
            },
            None => false,
        }
    }

    fn script_write(&self, to: Option<PortId>, data: &Vec<u8>) -> (r: Vec<Task>)
        ensures
            task_views(r@) == self@.script_write(to, data@),
    {
        let mut tasks: Vec<Task> = Vec::new();
        if self.takes_script(to) {
            if let Some(to) = to {
                tasks.push(
                    Task::Write { to, data: copy_of(data), oob: false, on_fail: OnFail::Stop(to) },
                );
            }
        }
        assert(task_views(tasks@) =~= self@.script_write(to, data@));
        tasks
    }

    fn script_delivery(&self, id: PortId, data: &Vec<u8>) -> (r: Vec<Task>)
        requires
            self.wf(),
            self@.has(id),
        ensures
            task_views(r@) == self@.script_delivery(id, data@),
    {
        let mut tasks: Vec<Task> = Vec::new();
        assert(task_views(tasks@) =~= Seq::<TaskView>::empty());
        let script_ref = match self.ports.get(id) {
            Some(p) => p.script_ref,
            None => None,
        };
        proof {
            assert(script_ref_ok(self@.ports, self@.ports[id].script_ref));
        }
        if let Some(sr) = script_ref {
            if let Some(sp) = self.ports.get(sr) {
                if sp.script_in_use {
                    tasks = self.script_write(sp.rscript, data);
                    let ghost first = tasks@;
                    let mut more = self.script_write(sp.lscript, data);
                    let ghost second = more@;
                    tasks.append(&mut more);
                    assert(task_views(tasks@) =~= task_views(first) + task_views(second));
                }
            }
        }
        tasks
    }

    fn script_end_exists(&self, id: PortId) -> (r: bool)
        requires
            self.wf(),
            self@.has(id),
        ensures
            r == self@.script_end_exists(id),
    {
        let script_ref = match self.ports.get(id) {
            Some(p) => p.script_ref,
            None => None,
        };
        proof {
            assert(script_ref_ok(self@.ports, self@.ports[id].script_ref));
        }
        match script_ref {
            Some(sr) => match self.ports.get(sr) {
                Some(sp) => {
                    let rs_exists = match sp.rscript {
                        Some(rs) => self.ports.contains(rs),
                        None => true,
                    };
                    let ls_exists = match sp.lscript {
                        Some(ls) => self.ports.contains(ls) || self.takes_script(sp.rscript),
                        None => true,
                    };
                    !sp.script_in_use || (rs_exists && ls_exists)
                },
                None => true,
            },
            None => true,
        }
    }

    /// Whether `data` from the script client `id` can be served: nothing is left of it behind
    /// the Telnet layer, or there is a port that it is for.
    pub fn script_ready(&self, id: PortId, data: &Vec<u8>) -> (r: bool)
        requires
            self.wf(),
            self@.has(id),
        ensures
            r == self@.script_ready(id, data@),
    {
        let raw = match self.ports.get(id) {
            Some(p) => p.mode & NO_TELNET_OPTION_NEGOTIATION != 0,
            None => false,
        };
        let left = if raw {
            data.len()
        } else {
            self.filter_iac(id, data).0.len()
        };
        left == 0 || self.script_end_exists(id)
    }

    /// Serves the script client `id`, which received `data` at the time `now`. No data
    /// means that the client is gone.
    pub fn handle_script_client_read(&mut self, id: PortId, data: Vec<u8>, now: u64) -> (r: Round)
        requires
            old(self).wf(),
            old(self)@.has(id),
            old(self)@.script_ready(id, data@),
            now + SERIAL_RECONNECT_INTERVAL <= u64::MAX,
        ensures
            final(self).wf(),
            (final(self)@, r@) == old(self)@.script_client_read(id, data@, now),
    {
        let (mode, script_ref) = match self.ports.get(id) {
            Some(p) => (p.mode, p.script_ref),
            None => (0, None),
        };
        if data.len() == 0 {
            if let Some(sr) = script_ref {
                self.kill_script_client(sr, id, now);
            }
            return Round::empty(true);
        }
        self.tracked_port_read(id, data.len(), None);
        if mode & NO_TELNET_OPTION_NEGOTIATION != 0 {
            return Round::of(self.script_delivery(id, &data));
        }
        let (out, mut round) = self.filtered(id, &data);
        if out.len() > 0 {
            round.tasks = self.script_delivery(id, &out);
        }
        round
    }

    /// Serves the out-of-band `data` of the port `id` at the time `now`.
    pub fn handle_oob_read(&mut self, id: PortId, data: Vec<u8>, now: u64) -> (r: Round)
        requires
            old(self).wf(),
            old(self)@.has(id),
            now + SERIAL_RECONNECT_INTERVAL <= u64::MAX,
        ensures
            final(self).wf(),
            (final(self)@, r@) == old(self)@.oob_read(id, data@, now),
    {
        if data.len() == 0 {
            self.killport(id, now);
            return Round::empty(true);
        }
        let peer = match self.ports.get(id) {
            Some(p) => p.peer,
            None => None,
        };
        self.tracked_port_read(id, data.len(), None);
        let mut tasks: Vec<Task> = Vec::new();
        if let Some(peer) = peer {
            if self.ports.contains(peer) {
                tasks.push(Task::Write { to: peer, data, oob: true, on_fail: OnFail::Stop(id) });
            }
        }
        proof {
            assert(task_views(tasks@) =~= old(self)@.oob_read(id, data@, now).1.tasks);
        }
        Round::of(tasks)
    }
}

/// Every console sees the line: what a serial device sends is written, but for debugger
/// packets that are split off, whole and unchanged to each of its connected clients, in the
/// order in which they came, before script clients get it. A client whose write failed does
/// not keep the others from theirs.
pub proof fn lemma_every_console_sees_the_line(
    s: ProxyView,
    id: PortId,
    data: Seq<u8>,
    states: Seq<ProxyView>,
    results: Seq<Option<usize>>,
    now: u64,
)
    requires
        s.has(id),
        s.ports[id].is_serial_remote(),
        !s.settings.telnet_negotiation,
        s.console_data(id, data).len() > 0,
        results.len() == states.len(),
        results.len() < s.ports[id].clients.len(),
        s.is_open(s.ports[id].clients[results.len() as int]),
    ensures
        ({
            let (s1, round) = s.remote_read(id, data, None, now);
            let left = wrote_all(round, states, results, now);
            let next = s.ports[id].clients[results.len() as int];
            let part = s.console_data(id, data);
            &&& round.tasks == broadcast(s.ports[id].clients, part) + seq![
                TaskView::KillMarked { script: None },
                TaskView::Script { from: id, data },
            ]
            &&& s1.round_step(left, now).2 == (ActionView::Write {
                to: next,
                data: part,
                oob: false,
            })
        }),
{
    let (s1, round) = s.remote_read(id, data, None, now);
    let clients = s.ports[id].clients;
    let part = s.console_data(id, data);
    assert(data.len() > 0);
    assert(s1.ports[id].clients == clients);
    assert(s1.ports[id].is_serial_remote());
    assert(s1.console_data(id, data) == part);
    assert(s1.is_open(clients[results.len() as int]));
    let rest = seq![TaskView::KillMarked { script: None }, TaskView::Script { from: id, data }];
    assert(round.tasks =~= broadcast(clients, part) + rest);
    lemma_broadcast_reaches_every_port(round, clients, part, rest, states, results, s1, now);
}

/// Consoles and debuggers are split: of text with a packet behind it, consoles get the text
/// alone and clients of the debugger port the packet alone.
pub proof fn lemma_line_is_split(
    s: ProxyView,
    id: PortId,
    sr: PortId,
    text: Seq<u8>,
    body: Seq<u8>,
    c1: u8,
    c2: u8,
    now: u64,
)
    requires
        s.has(id),
        s.ports[id].is_serial_remote(),
        s.ports[id].script_ref == Some(sr),
        s.ports[sr].break_port,
        s.settings.gdb_split,
        !s.settings.telnet_negotiation,
        s.gdb == GdbView::idle(),
        0 < text.len(),
        text.len() + body.len() + 4 <= MAX_GDB_BUF,
        forall|i: int|
            0 <= i < text.len() ==> text[i] != PLUS && text[i] != MINUS && text[i] != DOLLAR,
        forall|i: int| 0 <= i < body.len() ==> body[i] != DOLLAR && body[i] != HASH,
        c1 != DOLLAR && c1 != PLUS && c1 != MINUS,
        c2 != DOLLAR && c2 != PLUS && c2 != MINUS,
    ensures
        ({
            let packet = packet_bytes(body, c1, c2);
            let (s1, round) = s.remote_read(id, text + packet, None, now);
            &&& round.tasks == broadcast(s.ports[id].clients, text) + seq![
                TaskView::KillMarked { script: None },
                TaskView::Script { from: id, data: text + packet },
            ]
            &&& s1.script_written(sr, text + packet).1 == s1.client_tasks(sr, packet)
        }),
{
    let packet = packet_bytes(body, c1, c2);
    let data = text + packet;
    lemma_console_loses_packets(s.gdb, text, body, c1, c2);
    let (s1, round) = s.remote_read(id, data, None, now);
    assert(s1.console_data(id, data) == text);
    assert(round.tasks =~= broadcast(s.ports[id].clients, text) + seq![
        TaskView::KillMarked { script: None },
        TaskView::Script { from: id, data },
    ]);
    lemma_debugger_gets_the_packet(s1, sr, text, body, c1, c2);
}

/// Nothing that a split line sends is lost: what the consoles are written and what the
/// debugger port has then, to be passed on now or held for later, make up what was held back
/// and all of `data`.
pub proof fn lemma_split_line_is_delivered(
    s: ProxyView,
    id: PortId,
    sr: PortId,
    data: Seq<u8>,
    now: u64,
)
    requires
        s.wf(),
        s.has(id),
        s.ports[id].is_serial_remote(),
        s.ports[id].script_ref == Some(sr),
        s.ports[id].mode == SCRIPT_READ_WRITE,
        s.ports[sr].break_port,
        s.settings.gdb_split,
        !s.settings.telnet_negotiation,
        data.len() > 0,
    ensures
        ({
            let (s1, round) = s.remote_read(id, data, None, now);
            let (s2, tasks) = s1.shared(id, data);
            let part = console_part(s.gdb, data);
            &&& round.tasks == ProxyView::console_writes(s.ports[id].clients, part) + seq![
                TaskView::KillMarked { script: None },
                TaskView::Script { from: id, data },
            ]
            &&& s2.gdb == s.gdb.after(data)
            &&& tasks == if s.gdb.transmits(data) {
                s2.client_tasks(sr, s2.gdb.packet)
            } else {
                Seq::empty()
            }
            &&& s.gdb.held.to_multiset().add(data.to_multiset()).subset_of(
                part.to_multiset().add(s2.gdb.packet.to_multiset()),
            )
        }),
{
    broadcast use vstd::multiset::group_multiset_axioms;

    assert(0x6u32 & 0x4u32 != 0) by (bit_vector);
    let (s1, round) = s.remote_read(id, data, None, now);
    let part = console_part(s.gdb, data);
    assert(s1.console_data(id, data) == part);
    assert(round.tasks =~= ProxyView::console_writes(s.ports[id].clients, part) + seq![
        TaskView::KillMarked { script: None },
        TaskView::Script { from: id, data },
    ]);
    lemma_console_or_held(s.gdb, data);
    lemma_after_wf(s.gdb, data);
}

/// A console is raw by default: without Telnet negotiation every byte that a connection sends
/// is written to its peer as it is, whatever its value, and no break is made of it. Only what
/// a remote sends is split where there is a debugger port with filtering.
pub proof fn lemma_raw_bytes_reach_the_peer(
    s: ProxyView,
    id: PortId,
    peer: PortId,
    data: Seq<u8>,
    now: u64,
)
    requires
        s.has(id),
        s.ports[id].cls == PortClass::Connection,
        s.ports[id].peer == Some(peer),
        s.has(peer),
        s.ports[peer].sock >= 0,
        s.ports[id].mode & SCRIPT_READ == 0 || !s.splits(id),
        !s.settings.telnet_negotiation,
        data.len() > 0,
    ensures
        ({
            let round = s.remote_read(id, data, None, now).1;
            &&& round.breaks.len() == 0
            &&& round.tasks[0] == (TaskView::Write {
                to: peer,
                data,
                oob: false,
                on_fail: OnFail::Stop(id),
            })
        }),
{
    let s1 = s.remote_read(id, data, None, now).0;
    assert(s1.ports[id].peer == Some(peer));
    assert(s1.has(peer) && s1.ports[peer].sock == s.ports[peer].sock);
}

/// A debugger port is raw: every byte that its client sends is written to the remote as it
/// is, whether or not there is a console client, and no break is made of it.
pub proof fn lemma_debugger_bytes_reach_the_remote(
    s: ProxyView,
    id: PortId,
    sr: PortId,
    rs: PortId,
    data: Seq<u8>,
    now: u64,
)
    requires
        s.has(id),
        s.ports[id].mode == NO_TELNET_OPTION_NEGOTIATION,
        s.ports[id].script_ref == Some(sr),
        id != sr,
        id != rs,
        s.ports[sr].script_in_use,
        s.ports[sr].rscript == Some(rs),
        s.has(rs),
        s.ports[rs].mode == SCRIPT_READ_WRITE,
        data.len() > 0,
    ensures
        ({
            let round = s.script_client_read(id, data, now).1;
            &&& round.breaks.len() == 0
            &&& round.tasks.len() > 0
            &&& round.tasks[0] == (TaskView::Write {
                to: rs,
                data,
                oob: false,
                on_fail: OnFail::Stop(rs),
            })
        }),
{
    assert(0x10u32 & 0x10u32 != 0) by (bit_vector);
    assert(0x6u32 & 0x2u32 != 0) by (bit_vector);
}

} // verus!
