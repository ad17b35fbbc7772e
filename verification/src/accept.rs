//! New connections: clients of the local port and of the script port, and the remote that
//! a client of the local port is joined to.
use nix::errno::Errno;
use vstd::prelude::*;
use crate::bytes::{copy_of, holds};
use crate::errno::{errno_is_connect_pending, is_connect_pending};
use crate::fdset::selectable;
use crate::port::{
    PortClass, PortId, PortType, PortView, RawFd, SockAddr, NO_TELNET_OPTION_NEGOTIATION,
};
use crate::round::{startup, startup_tasks, task_views, OnFail, Round, RoundView, Task, TaskView};
use crate::state::{script_ref_ok, ProxyState, ProxyView};
use crate::telnet::{break_views, BreakRequest, BreakView};
use crate::write::SendView;

verus! {

/// A connection to the remote that was made, or is being made.
#[derive(Debug, Clone, Copy, PartialEq, Eq, Structural)]
pub struct Link {
    pub sock: RawFd,
    pub connecting: bool,
}

/// What has to be done before a client can be joined to the remote.
#[derive(Debug, Clone, Copy, PartialEq, Eq, Structural)]
pub enum RemotePlan {
    /// It cannot be joined.
    Unavailable,
    /// A connection to the address has to be made.
    Connect(SockAddr),
    /// Nothing: the remote is shared.
    Attach,
}

/// Whether a connection is being made after `connect` returned `result`, or `None` where
/// it failed.
pub fn connect_outcome(result: Result<(), Errno>) -> (r: Option<bool>)
    ensures
        r == (match result {
            Ok(_) => Some(false),
            Err(e) => if is_connect_pending(e) {
                Some(true)
            } else {
                None
            },
        }),
{
    match result {
        Ok(_) => Some(false),
        Err(e) => {
            if errno_is_connect_pending(e) {
                Some(true)
            } else {
                None
            }
        },
    }
}

impl ProxyView {
    /// What has to be done before a client can be joined to `remote`.
    pub open spec fn remote_plan(self, remote: Option<PortId>) -> RemotePlan {
        match remote {
            Some(rid) => {
                let p = self.ports[rid];
                if !self.has(rid) {
                    RemotePlan::Unavailable
                } else if p.port_type == PortType::Tcp {
                    match p.serv_addr {
                        Some(addr) => RemotePlan::Connect(addr),
                        None => RemotePlan::Unavailable,
                    }
                } else if p.port_type == PortType::Udp || p.port_type == PortType::Rs232 {
                    RemotePlan::Attach
                } else {
                    RemotePlan::Unavailable
                }
            },
            None => RemotePlan::Unavailable,
        }
    }

    /// The state with `link` as a connection to the remote on behalf of `client`.
    pub open spec fn link_added(self, client: PortId, port_num: u16, link: Link) -> ProxyView {
        let s = self.allocated(PortType::Tcp, PortClass::Connection).with_port(
            self.next_id,
            PortView {
                sock: link.sock,
                port_num,
                peer: Some(client),
                connecting: link.connecting,
                ..PortView::fresh(PortType::Tcp, PortClass::Connection)
            },
        );
        let s1 = if link.connecting {
            ProxyView { wds: s.wds.insert(link.sock), ..s }
        } else {
            ProxyView { rds: s.rds.insert(link.sock), ..s }
        };
        s1.refreshed().dirty()
    }

    /// The state with `client` among the clients of the serial remote `rid`.
    pub open spec fn serial_attached(self, client: PortId, rid: PortId) -> ProxyView {
        let p = self.ports[rid];
        self.with_port(
            rid,
            PortView {
                clients: if p.clients.contains(client) {
                    p.clients
                } else {
                    p.clients.push(client)
                },
                peer: if p.peer is None {
                    Some(client)
                } else {
                    p.peer
                },
                ..p
            },
        ).dirty()
    }

    /// The port `client` joined to its remote, and the port that is then its peer. `link`
    /// is the connection that was made, where one has to be.
    pub open spec fn remote_opened(self, client: PortId, link: Option<Link>) -> (
        ProxyView,
        Option<PortId>,
    ) {
        let remote = self.ports[client].remote;
        match self.remote_plan(remote) {
            RemotePlan::Unavailable => (self, None),
            RemotePlan::Connect(_) => match link {
                Some(link) => (
                    self.link_added(client, self.ports[remote->0].port_num, link),
                    Some(self.next_id),
                ),
                None => (self, None),
            },
            RemotePlan::Attach => {
                let rid = remote->0;
                let p = self.ports[rid];
                if p.port_type == PortType::Udp {
                    (self.with_port(rid, PortView { peer: Some(client), ..p }).dirty(), Some(rid))
                } else {
                    (self.serial_attached(client, rid), Some(rid))
                }
            },
        }
    }

    /// The state with the port `id` attached to the script port `sr` in the mode `mode`.
    pub open spec fn scripted(self, id: PortId, sr: PortId, mode: u32) -> ProxyView {
        self.with_port(id, PortView { script_ref: Some(sr), mode, ..self.ports[id] })
    }

    /// The state with `id` as the local end of the script port `sr`, if it had none.
    pub open spec fn local_end(self, sr: PortId, id: PortId) -> ProxyView {
        let sp = self.ports[sr];
        self.with_port(
            sr,
            PortView {
                lscript: if sp.lscript is None {
                    Some(id)
                } else {
                    sp.lscript
                },
                ..sp
            },
        )
    }

    /// The state with the script port `sr` in use and `id` as its remote end.
    pub open spec fn remote_end(self, sr: PortId, id: PortId) -> ProxyView {
        self.with_port(
            sr,
            PortView { rscript: Some(id), script_in_use: true, ..self.ports[sr] },
        )
    }

    /// The state in which the client `client` and its peer take part in scripting on `sr`.
    /// A serial device is shared: each of its clients takes part. Any other remote belongs
    /// to the first client, for as long as that uses the script port.
    pub open spec fn script_joined(self, sr: PortId, client: PortId, peer: PortId) -> ProxyView {
        let sp = self.ports[sr];
        if self.ports[peer].port_type == PortType::Rs232 {
            let s = self.scripted(client, sr, sp.lmode).local_end(sr, client);
            if self.ports[peer].sock >= 0 {
                s.scripted(peer, sr, sp.rmode).remote_end(sr, peer)
            } else {
                s
            }
        } else if !sp.script_in_use {
            self.scripted(client, sr, sp.lmode).scripted(peer, sr, sp.rmode).local_end(
                sr,
                client,
            ).remote_end(sr, peer)
        } else {
            self
        }
    }

    /// What is done with the client on `nsock` that the local port `id` accepted.
    pub open spec fn local_accepted(self, id: PortId, nsock: RawFd, link: Option<Link>) -> (
        ProxyView,
        RoundView,
    ) {
        let client = self.next_id;
        let local = self.ports[id];
        let s = self.allocated(PortType::Tcp, PortClass::Connection).with_port(
            client,
            PortView {
                sock: nsock,
                is_local: true,
                remote: local.remote,
                ..PortView::fresh(PortType::Tcp, PortClass::Connection)
            },
        );
        let (s1, peer) = s.remote_opened(client, link);
        match peer {
            Some(peer) => {
                let s2 = s1.with_port(client, PortView { peer: Some(peer), ..s1.ports[client] });
                let s3 = ProxyView { rds: s2.rds.insert(nsock), ..s2 }.refreshed().dirty();
                let telnet = self.settings.telnet_negotiation && self.ports[local.remote->0].port_type
                    == PortType::Rs232;
                (
                    match local.script_ref {
                        Some(sr) => s3.script_joined(sr, client, peer),
                        None => s3,
                    },
                    RoundView::of(
                        if telnet {
                            startup_tasks(client)
                        } else {
                            Seq::empty()
                        },
                    ),
                )
            },
            None => (
                ProxyView {
                    ports: s1.ports.remove(client),
                    status_dirty: true,
                    ..s1
                }.shutting(nsock).closing(nsock),
                RoundView::empty(false),
            ),
        }
    }

    /// What is done with `data` on the local port `id`, which has no connections and whose
    /// peer is `peer`; `None` where the proxy ends, because its standard input did.
    pub open spec fn local_read(
        self,
        id: PortId,
        peer: Option<PortId>,
        data: Seq<u8>,
        src: Option<SockAddr>,
    ) -> (ProxyView, Option<RoundView>) {
        let s = self.read_from(id, data.len() as int, src);
        match peer {
            Some(peer) => if data.len() > 0 {
                (
                    s,
                    Some(
                        RoundView::of(
                            seq![
                                TaskView::Write {
                                    to: peer,
                                    data,
                                    oob: false,
                                    on_fail: OnFail::Ignore,
                                },
                            ],
                        ),
                    ),
                )
            } else if self.ports[id].port_type == PortType::StdinOut {
                (s, None)
            } else {
                (s, Some(RoundView::empty(false)))
            },
            None => (s, Some(RoundView::empty(false))),
        }
    }

    /// What is done with the client on `nsock` that the script port `id` accepted. A client
    /// of a debugger port speaks raw TCP, and the remote gets a break for it; another one is
    /// offered Telnet.
    pub open spec fn script_accepted(self, id: PortId, nsock: RawFd) -> (ProxyView, RoundView) {
        let client = self.next_id;
        let sp = self.ports[id];
        let s = self.allocated(PortType::Tcp, PortClass::ScriptClient).with_port(
            client,
            PortView {
                sock: nsock,
                script_ref: Some(id),
                mode: if sp.break_port {
                    NO_TELNET_OPTION_NEGOTIATION
                } else {
                    0
                },
                ..PortView::fresh(PortType::Tcp, PortClass::ScriptClient)
            },
        ).with_port(id, PortView { clients: sp.clients.push(client), ..sp });
        (
            ProxyView { rds: s.rds.insert(nsock), ..s }.refreshed().dirty(),
            RoundView {
                breaks: if self.settings.break_on_connect && sp.break_port && sp.rscript is Some {
                    seq![BreakView { to: sp.rscript->0, bytes: self.settings.break_str }]
                } else {
                    Seq::empty()
                },
                tasks: if sp.mode & NO_TELNET_OPTION_NEGOTIATION == 0 && !sp.break_port {
                    startup_tasks(client)
                } else {
                    Seq::empty()
                },
                marked: Seq::empty(),
                stop: false,
            },
        )
    }
}

impl ProxyState {
    /// What has to be done before a client can be joined to `remote`.
    pub fn remote_plan(&self, remote: Option<PortId>) -> (r: RemotePlan)
        ensures
            r == self@.remote_plan(remote),
    {
        let rid = match remote {
            Some(rid) => rid,
            None => {
                return RemotePlan::Unavailable;
            },
        };
        match self.ports.get(rid) {
            Some(p) => {
                if p.port_type == PortType::Tcp {
                    match p.serv_addr {
                        Some(addr) => RemotePlan::Connect(addr),
                        None => RemotePlan::Unavailable,
                    }
                } else if p.port_type == PortType::Udp || p.port_type == PortType::Rs232 {
                    RemotePlan::Attach
                } else {
                    RemotePlan::Unavailable
                }
            },
            None => RemotePlan::Unavailable,
        }
    }

    fn add_link(&mut self, client: PortId, port_num: u16, link: Link) -> (id: PortId)
        requires
            old(self).wf(),
            old(self).next_id < usize::MAX,
            selectable(link.sock),
        ensures
            final(self).wf(),
            final(self)@ == old(self)@.link_added(client, port_num, link),
            id == old(self)@.next_id,
    {
        let id = self.alloc_port(PortType::Tcp, PortClass::Connection);
        if let Some(p) = self.ports.get_mut(id) {
            p.sock = link.sock;
            p.port_num = port_num;
            p.peer = Some(client);
            p.connecting = link.connecting;
        }
        if link.connecting {
            self.master_wds.insert(link.sock);
        } else {
            self.master_rds.insert(link.sock);
        }
        self.refresh_nsockhandle();
        self.status_dirty = true;
        id
    }

    fn attach_serial(&mut self, client: PortId, rid: PortId)
        requires
            old(self).wf(),
            old(self)@.has(rid),
        ensures
            final(self).wf(),
            final(self)@ == old(self)@.serial_attached(client, rid),
    {
        if let Some(remote) = self.ports.get_mut(rid) {
            if !holds(&remote.clients, client) {
                remote.clients.push(client);
            }
            if remote.peer.is_none() {
                remote.peer = Some(client);
            }
        }
        self.status_dirty = true;
    }

    /// Joins the port `client` to its remote and returns the port that is then its peer.
    /// `link` is the connection that was made, where one has to be.
    pub fn open_remote_port(&mut self, client: PortId, link: Option<Link>) -> (r: Option<PortId>)
        requires
            old(self).wf(),
            old(self)@.has(client),
            old(self).next_id < usize::MAX,
            link matches Some(l) ==> selectable(l.sock),
        ensures
            final(self).wf(),
            (final(self)@, r) == old(self)@.remote_opened(client, link),
            r matches Some(id) ==> final(self)@.has(id),
            old(self)@.ports.dom().subset_of(final(self)@.ports.dom()),
    {
        let remote = match self.ports.get(client) {
            Some(p) => p.remote,
            None => None,
        };
        let rid = match remote {
            Some(rid) => rid,
            None => {
                return None;
            },
        };
        let (port_num, udp) = match self.ports.get(rid) {
            Some(p) => (p.port_num, p.port_type == PortType::Udp),
            None => {
                return None;
            },
        };
        match self.remote_plan(remote) {
            RemotePlan::Unavailable => None,
            RemotePlan::Connect(_) => match link {
                Some(link) => Some(self.add_link(client, port_num, link)),
                None => None,
            },
            RemotePlan::Attach => {
                if udp {
                    if let Some(p) = self.ports.get_mut(rid) {
                        p.peer = Some(client);
                    }
                    self.status_dirty = true;
                } else {
                    self.attach_serial(client, rid);
                }
                Some(rid)
            },
        }
    }

    fn set_scripted(&mut self, id: PortId, sr: PortId, mode: u32)
        requires
            old(self).wf(),
            old(self)@.has(id),
            script_ref_ok(old(self)@.ports, Some(sr)),
        ensures
            final(self).wf(),
            final(self)@ == old(self)@.scripted(id, sr, mode),
    {
        if let Some(p) = self.ports.get_mut(id) {
            p.script_ref = Some(sr);
            p.mode = mode;
        }
    }

    fn set_local_end(&mut self, sr: PortId, id: PortId)
        requires
            old(self).wf(),
            old(self)@.has(sr),
        ensures
            final(self).wf(),
            final(self)@ == old(self)@.local_end(sr, id),
    {
        if let Some(sp) = self.ports.get_mut(sr) {
            if sp.lscript.is_none() {
                sp.lscript = Some(id);
            }
        }
    }

    fn set_remote_end(&mut self, sr: PortId, id: PortId)
        requires
            old(self).wf(),
            old(self)@.has(sr),
        ensures
            final(self).wf(),
            final(self)@ == old(self)@.remote_end(sr, id),
    {
        if let Some(sp) = self.ports.get_mut(sr) {
            sp.rscript = Some(id);
            sp.script_in_use = true;
        }
    }

    fn join_script(&mut self, sr: PortId, client: PortId, peer: PortId)
        requires
            old(self).wf(),
            old(self)@.has(client),
            old(self)@.has(peer),
            script_ref_ok(old(self)@.ports, Some(sr)),
        ensures
            final(self).wf(),
            final(self)@ == old(self)@.script_joined(sr, client, peer),
    {
        let (serial, connected) = match self.ports.get(peer) {
            Some(p) => (p.port_type == PortType::Rs232, p.sock >= 0),
            None => (false, false),
        };
        let (in_use, lmode, rmode) = match self.ports.get(sr) {
            Some(sp) => (sp.script_in_use, sp.lmode, sp.rmode),
            None => (true, 0, 0),
        };
        if serial {
            self.set_scripted(client, sr, lmode);
            self.set_local_end(sr, client);
            if connected {
                self.set_scripted(peer, sr, rmode);
                self.set_remote_end(sr, peer);
            }
        } else if !in_use {
            self.set_scripted(client, sr, lmode);
            self.set_scripted(peer, sr, rmode);
            self.set_local_end(sr, client);
            self.set_remote_end(sr, peer);
        }
    }

    fn add_local_client(&mut self, nsock: RawFd, remote: Option<PortId>) -> (id: PortId)
        requires
            old(self).wf(),
            old(self).next_id < usize::MAX,
            selectable(nsock),
        ensures
            final(self).wf(),
            id == old(self)@.next_id,
            final(self)@ == old(self)@.allocated(PortType::Tcp, PortClass::Connection).with_port(
                id,
                PortView {
                    sock: nsock,
                    is_local: true,
                    remote,
                    ..PortView::fresh(PortType::Tcp, PortClass::Connection)
                },
            ),
    {
        let id = self.alloc_port(PortType::Tcp, PortClass::Connection);
        if let Some(p) = self.ports.get_mut(id) {
            p.sock = nsock;
            p.is_local = true;
            p.remote = remote;
        }
        id
    }

    fn set_peer(&mut self, id: PortId, peer: PortId)
        requires
            old(self).wf(),
            old(self)@.has(id),
        ensures
            final(self).wf(),
            final(self)@ == old(self)@.with_port(
                id,
                PortView { peer: Some(peer), ..old(self)@.ports[id] },
            ),
    {
        if let Some(p) = self.ports.get_mut(id) {
            p.peer = Some(peer);
        }
    }

    /// Serves the local port `id`, which accepted a client on `nsock`. `link` is the
    /// connection to the remote that was made for it, where one has to be.
    pub fn handle_local_accept(&mut self, id: PortId, nsock: RawFd, link: Option<Link>) -> (r: Round)
        requires
            old(self).wf(),
            old(self)@.has(id),
            old(self).next_id < usize::MAX - 1,
            selectable(nsock),
            link matches Some(l) ==> selectable(l.sock),
        ensures
            final(self).wf(),
            (final(self)@, r@) == old(self)@.local_accepted(id, nsock, link),
    {
        let (remote, script_ref) = match self.ports.get(id) {
            Some(p) => (p.remote, p.script_ref),
            None => (None, None),
        };
        proof {
            assert(script_ref_ok(self@.ports, self@.ports[id].script_ref));
        }
        let telnet = self.settings.telnet_negotiation && match remote {
            Some(rid) => match self.ports.get(rid) {
                Some(p) => p.port_type == PortType::Rs232,
                None => false,
            },
            None => false,
        };
        let client = self.add_local_client(nsock, remote);
        let ghost s = self@;
        match self.open_remote_port(client, link) {
            Some(peer) => {
                let ghost s1 = self@;
                self.set_peer(client, peer);
                self.master_rds.insert(nsock);
                self.refresh_nsockhandle();
                self.status_dirty = true;
                if let Some(sr) = script_ref {
                    proof {
                        assert(s1.has(sr));
                        assert(self@.ports[sr].cls == PortClass::Script);
                    }
                    self.join_script(sr, client, peer);
                }
                let tasks = if telnet {
                    startup(client)
                } else {
                    Vec::new()
                };
                proof {
                    if !telnet {
                        assert(task_views(tasks@) =~= Seq::<TaskView>::empty());
                    }
                }
                Round::of(tasks)
            },
            None => {
                let _ = self.remove_port(client);
                self.shut_down(nsock);
                self.close_fd(nsock);
                Round::empty(false)
            },
        }
    }

    /// Joins the local port `id`, which has no connections, to its remote.
    pub fn open_local_peer(&mut self, id: PortId, link: Option<Link>) -> (r: Option<PortId>)
        requires
            old(self).wf(),
            old(self)@.has(id),
            old(self).next_id < usize::MAX,
            link matches Some(l) ==> selectable(l.sock),
        ensures
            final(self).wf(),
            ({
                let (s, peer) = old(self)@.remote_opened(id, link);
                &&& r == peer
                &&& final(self)@ == match peer {
                    Some(peer) => s.with_port(id, PortView { peer: Some(peer), ..s.ports[id] }),
                    None => s,
                }
            }),
    {
        let peer = self.open_remote_port(id, link);
        if let Some(peer) = peer {
            self.set_peer(id, peer);
        }
        peer
    }

    /// Serves the local port `id`, which has no connections, has the peer `peer`, and
    /// received `data`, possibly from `src`. The proxy ends where the result is `None`.
    pub fn handle_local_port_read(
        &mut self,
        id: PortId,
        peer: Option<PortId>,
        data: Vec<u8>,
        src: Option<SockAddr>,
    ) -> (r: Option<Round>)
        requires
            old(self).wf(),
            old(self)@.has(id),
        ensures
            final(self).wf(),
            final(self)@ == old(self)@.local_read(id, peer, data@, src).0,
            match r {
                Some(round) => old(self)@.local_read(id, peer, data@, src).1 == Some(round@),
                None => old(self)@.local_read(id, peer, data@, src).1 is None,
            },
    {
        let stdin = match self.ports.get(id) {
            Some(p) => p.port_type == PortType::StdinOut,
            None => false,
        };
        self.tracked_port_read(id, data.len(), src);
        let peer = match peer {
            Some(peer) => peer,
            None => {
                return Some(Round::empty(false));
            },
        };
        if data.len() == 0 {
            return if stdin {
                None
            } else {
                Some(Round::empty(false))
            };
        }
        let mut tasks: Vec<Task> = Vec::new();
        tasks.push(Task::Write { to: peer, data, oob: false, on_fail: OnFail::Ignore });
        proof {
            assert(task_views(tasks@) =~= seq![
                TaskView::Write { to: peer, data: data@, oob: false, on_fail: OnFail::Ignore },
            ]);
        }
        Some(Round::of(tasks))
    }

    fn add_script_client(&mut self, sr: PortId, nsock: RawFd, raw: bool) -> (id: PortId)
        requires
            old(self).wf(),
            old(self).next_id < usize::MAX,
            script_ref_ok(old(self)@.ports, Some(sr)),
            selectable(nsock),
        ensures
            final(self).wf(),
            id == old(self)@.next_id,
            final(self)@ == old(self)@.allocated(PortType::Tcp, PortClass::ScriptClient).with_port(
                id,
                PortView {
                    sock: nsock,
                    script_ref: Some(sr),
                    mode: if raw {
                        NO_TELNET_OPTION_NEGOTIATION
                    } else {
                        0
                    },
                    ..PortView::fresh(PortType::Tcp, PortClass::ScriptClient)
                },
            ),
    {
        let id = self.alloc_port(PortType::Tcp, PortClass::ScriptClient);
        if let Some(p) = self.ports.get_mut(id) {
            p.sock = nsock;
            p.script_ref = Some(sr);
            if raw {
                p.mode = NO_TELNET_OPTION_NEGOTIATION;
            }
        }
        id
    }

    fn push_client(&mut self, id: PortId, client: PortId)
        requires
            old(self).wf(),
            old(self)@.has(id),
        ensures
            final(self).wf(),
            final(self)@ == old(self)@.with_port(
                id,
                PortView {
                    clients: old(self)@.ports[id].clients.push(client),
                    ..old(self)@.ports[id]
                },
            ),
    {
        if let Some(p) = self.ports.get_mut(id) {
            p.clients.push(client);
        }
    }

    /// Serves the script port `id`, which accepted a client on `nsock`.
    pub fn handle_script_port_read(&mut self, id: PortId, nsock: RawFd) -> (r: Round)
        requires
            old(self).wf(),
            old(self)@.has(id),
            old(self)@.ports[id].cls == PortClass::Script,
            old(self).next_id < usize::MAX,
            selectable(nsock),
        ensures
            final(self).wf(),
            (final(self)@, r@) == old(self)@.script_accepted(id, nsock),
    {
        let (break_port, rscript, mode) = match self.ports.get(id) {
            Some(sp) => (sp.break_port, sp.rscript, sp.mode),
            None => (false, None, 0),
        };
        let client = self.add_script_client(id, nsock, break_port);
        self.push_client(id, client);
        self.master_rds.insert(nsock);
        self.refresh_nsockhandle();
        self.status_dirty = true;
        let mut round = Round::empty(false);
        if mode & NO_TELNET_OPTION_NEGOTIATION == 0 && !break_port {
            round.tasks = startup(client);
        }
        if self.settings.break_on_connect && break_port {
            if let Some(rs) = rscript {
                let bytes = copy_of(&self.settings.break_str);
                round.breaks.push(BreakRequest { to: rs, bytes });
                proof {
                    assert(break_views(round.breaks@) =~= seq![
                        BreakView { to: rs, bytes: self@.settings.break_str },
                    ]);
                }
            }
        }
        round
    }
}

/// A client of the local port and the connection that was made for it are each other's peer,
/// so that what either sends is delivered to the other.
pub proof fn lemma_tcp_ends_are_joined(
    s: ProxyView,
    id: PortId,
    rid: PortId,
    nsock: RawFd,
    link: Link,
)
    requires
        s.wf(),
        s.has(id),
        s.ports[id].remote == Some(rid),
        s.has(rid),
        s.ports[rid].port_type == PortType::Tcp,
        s.ports[rid].serv_addr is Some,
        s.next_id < usize::MAX - 1,
    ensures
        ({
            let t = s.local_accepted(id, nsock, Some(link)).0;
            let client = s.next_id;
            let peer = (s.next_id + 1) as usize;
            &&& t.has(client) && t.ports[client].sock == nsock
            &&& t.has(peer) && t.ports[peer].sock == link.sock
            &&& t.ports[client].peer == Some(peer)
            &&& t.ports[peer].peer == Some(client)
            &&& t.ports[peer].connecting == link.connecting
            &&& t.rds.contains(nsock)
        }),
{
    let client = s.next_id;
    let peer = (s.next_id + 1) as usize;
    assert(rid < s.next_id && id < s.next_id);
    assert(script_ref_ok(s.ports, s.ports[id].script_ref));
    assert(s.ports[id].script_ref matches Some(sr) ==> sr < s.next_id);
}

/// A datagram reply goes to whoever sent the last datagram: after a local datagram port was
/// joined to a datagram remote and received data from `src`, what the remote answers is
/// written to the local port, but for debugger packets that are split off, and sent from
/// there to `src`.
pub proof fn lemma_datagram_reply_goes_to_sender(
    s: ProxyView,
    id: PortId,
    rid: PortId,
    data: Seq<u8>,
    src: SockAddr,
    reply: Seq<u8>,
)
    requires
        s.has(id),
        s.has(rid),
        id != rid,
        s.ports[id].port_type == PortType::Udp,
        s.ports[id].sock >= 0,
        s.ports[id].remote == Some(rid),
        s.ports[rid].port_type == PortType::Udp,
        data.len() > 0,
        s.peer_data(rid, reply).len() > 0,
    ensures
        ({
            let (s1, peer) = s.remote_opened(id, None);
            let s2 = s1.with_port(id, PortView { peer: Some(rid), ..s1.ports[id] });
            let s3 = s2.local_read(id, peer, data, Some(src)).0;
            let part = s.peer_data(rid, reply);
            &&& peer == Some(rid)
            &&& s3.delivery(rid, reply)[0] == (TaskView::Write {
                to: id,
                data: part,
                oob: false,
                on_fail: OnFail::Stop(rid),
            })
            &&& s3.send_request(id, part, false) == Some(
                SendView {
                    port_type: PortType::Udp,
                    sock: s.ports[id].sock,
                    to: Some(src),
                    bytes: part,
                    oob: false,
                },
            )
        }),
{
}

/// A debugger client gets no greeting: nothing is written to it when it connects, and where
/// breaks are wanted the remote gets the break sequence.
pub proof fn lemma_debugger_connects_silently(s: ProxyView, id: PortId, nsock: RawFd)
    requires
        s.ports[id].break_port,
    ensures
        ({
            let round = s.script_accepted(id, nsock).1;
            &&& round.tasks.len() == 0
            &&& s.settings.break_on_connect && s.ports[id].rscript is Some ==> round.breaks == seq![
                BreakView { to: s.ports[id].rscript->0, bytes: s.settings.break_str },
            ]
            &&& !s.settings.break_on_connect ==> round.breaks.len() == 0
        }),
{
}

} // verus!
