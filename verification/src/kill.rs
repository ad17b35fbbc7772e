//! Ending ports: what goes with a connection that is over, and what stays.
use vstd::prelude::*;
use crate::bytes::{lemma_without, vec_without, without};
use crate::port::{Port, PortClass, PortId, PortType, PortView, RawFd, NO_FD};
use crate::state::{
    fd_ok, script_ref_ok, Effect, ProxyState, ProxyView, SERIAL_RECONNECT_INTERVAL,
};

verus! {

/// The first of `clients` that is a port other than `id`.
pub open spec fn first_other(
    ports: Map<PortId, PortView>,
    clients: Seq<PortId>,
    id: PortId,
) -> Option<PortId>
    decreases clients.len(),
{
    if clients.len() == 0 {
        None
    } else if clients[0] != id && ports.dom().contains(clients[0]) {
        Some(clients[0])
    } else {
        first_other(ports, clients.skip(1), id)
    }
}

/// `p` without `id` among its clients, where it is a serial device. If `id` was its peer,
/// the first client that is left takes that place.
pub open spec fn detached_port(p: PortView, id: PortId) -> PortView {
    if p.port_type == PortType::Rs232 {
        let clients = without(p.clients, id);
        PortView {
            clients,
            peer: if p.peer == Some(id) {
                if clients.len() > 0 {
                    Some(clients[0])
                } else {
                    None
                }
            } else {
                p.peer
            },
            ..p
        }
    } else {
        p
    }
}

impl ProxyView {
    /// The state with `id` taken off the clients of every serial device.
    pub open spec fn detached(self, id: PortId) -> ProxyView {
        ProxyView { ports: self.ports.map_values(|p: PortView| detached_port(p, id)), ..self }
    }

    /// The state with the serial port `id` closed at the time `now` and due to be reopened.
    pub open spec fn serial_closed(self, id: PortId, now: u64) -> ProxyView {
        let p = self.ports[id];
        let s = if p.sock >= 0 {
            self.unwatched(p.sock).closing(p.sock)
        } else {
            self
        };
        s.with_port(
            id,
            PortView {
                sock: NO_FD,
                peer: None,
                tx_buf: Seq::empty(),
                connecting: false,
                serial_reconnect_at: Some((now + SERIAL_RECONNECT_INTERVAL) as u64),
                serial_check_at: None,
                ..p
            },
        )
    }

    /// The state in which the script port `script_ref`, if there is one, is not in use and
    /// not attached to the remote `id`.
    pub open spec fn script_unused(self, script_ref: Option<PortId>, id: PortId) -> ProxyView {
        match script_ref {
            Some(sr) => if self.has(sr) {
                let sp = self.ports[sr];
                self.with_port(
                    sr,
                    PortView {
                        rscript: if sp.rscript == Some(id) {
                            None
                        } else {
                            sp.rscript
                        },
                        script_in_use: false,
                        ..sp
                    },
                )
            } else {
                self
            },
            None => self,
        }
    }

    /// The state after the serial device of the port `id` was lost at the time `now`: its
    /// descriptor is closed, its clients stay, and the script port is no longer in use.
    pub open spec fn serial_lost(self, id: PortId, now: u64) -> ProxyView {
        if !self.has(id) || !self.ports[id].is_serial_remote() {
            self
        } else {
            self.serial_closed(id, now).script_unused(
                self.ports[id].script_ref,
                id,
            ).refreshed().dirty()
        }
    }

    /// The state in which the port `id` uses the descriptor `spare` in place of its own,
    /// which is closed.
    pub open spec fn fallen_back(self, id: PortId, spare: RawFd) -> ProxyView {
        let p = self.ports[id];
        let s1 = self.unwatched(p.sock).closing(p.sock);
        ProxyView { rds: s1.rds.insert(spare), ..s1.with_port(id, PortView { sock: spare, ..p }) }
    }

    /// The state after the persistent remote `id` lost its connection: it has no peer, and
    /// where it waits for the next connection on another descriptor it goes back to that.
    pub open spec fn remote_released(self, id: PortId) -> ProxyView {
        let p = self.ports[id];
        let s1 = self.with_port(id, PortView { peer: None, ..p });
        if p.port_type == PortType::Listen && self.listen_fd >= 0 {
            ProxyView {
                listen_fd: NO_FD,
                ..s1.fallen_back(id, self.listen_fd).refreshed().dirty()
            }
        } else if p.port_type == PortType::FifoCon && self.fifo_con_fd >= 0 {
            ProxyView {
                fifo_con_fd: NO_FD,
                ..s1.fallen_back(id, self.fifo_con_fd).refreshed().dirty()
            }
        } else {
            s1.dirty()
        }
    }

    /// The client that takes the place of `id` on its serial device, if there is one.
    pub open spec fn replacement(self, id: PortId) -> Option<PortId> {
        match self.ports[id].peer {
            Some(peer) => if self.has(peer) && self.ports[peer].port_type == PortType::Rs232 {
                first_other(self.ports, self.ports[peer].clients, id)
            } else {
                None
            },
            None => None,
        }
    }

    /// The remote that the script port `sp` is attached to outlives its connections.
    pub open spec fn script_stays(self, sp: PortView) -> bool {
        match sp.rscript {
            Some(rs) => self.has(rs) && self.ports[rs].port_type != PortType::Tcp,
            None => false,
        }
    }

    /// The script port `sp` after the port `id`, of the class `cls`, left it.
    pub open spec fn left_script(self, sp: PortView, id: PortId, cls: PortClass) -> PortView {
        let sp1 = if sp.lscript == Some(id) {
            match self.replacement(id) {
                Some(other) => PortView { lscript: Some(other), ..sp },
                None => PortView {
                    lscript: None,
                    script_in_use: sp.script_in_use && self.script_stays(sp),
                    ..sp
                },
            }
        } else {
            sp
        };
        if cls == PortClass::Remote && sp1.rscript == Some(id) {
            PortView { rscript: None, script_in_use: false, ..sp1 }
        } else {
            sp1
        }
    }

    /// The state after the port `id` left the script port that it is attached to.
    pub open spec fn script_left(self, id: PortId) -> ProxyView {
        match self.ports[id].script_ref {
            Some(sr) => if self.has(sr) {
                self.with_port(sr, self.left_script(self.ports[sr], id, self.ports[id].cls))
            } else {
                self
            },
            None => self,
        }
    }

    /// The state with the descriptor `fd` of a port of the type `port_type` to be closed;
    /// a stream is shut down first.
    pub open spec fn port_closed(self, port_type: PortType, fd: RawFd) -> ProxyView {
        if port_type == PortType::Tcp || port_type == PortType::Listen || port_type
            == PortType::FifoCon {
            self.shutting(fd).closing(fd)
        } else {
            self.closing(fd)
        }
    }

    /// The state without the port `id`, which is a connection.
    pub open spec fn connection_removed(self, id: PortId) -> ProxyView {
        let p = self.ports[id];
        let s = self.script_left(id).unwatched(p.sock).port_closed(p.port_type, p.sock).detached(
            id,
        );
        ProxyView { ports: s.ports.remove(id), status_dirty: true, ..s }
    }

    /// The port `peer` ends together with the connection that it was the peer of.
    pub open spec fn dies_with_peer(self, peer: PortId) -> bool {
        self.has(peer) && self.ports[peer].sock != NO_FD
            && !self.ports[peer].is_persistent_remote()
    }

    /// The state after the port `id` was ended at the time `now`. A serial device waits to
    /// be reopened; listening ports and persistent remotes stay; a connection goes, and its
    /// peer with it unless that is a persistent remote.
    pub open spec fn killed(self, id: PortId, now: u64) -> ProxyView
        decreases self.ports.dom().len(),
    {
        if !self.has(id) || !self.ports.dom().finite() {
            self
        } else {
            let p = self.ports[id];
            if p.is_serial_remote() {
                self.serial_lost(id, now)
            } else if p.cls == PortClass::Local || p.cls == PortClass::Script {
                self.dirty()
            } else if p.is_persistent_remote() {
                self.remote_released(id)
            } else {
                let s = self.connection_removed(id);
                proof {
                    lemma_connection_removed_dom(self, id);
                }
                match p.peer {
                    Some(peer) => if s.dies_with_peer(peer) {
                        s.killed(peer, now).refreshed()
                    } else {
                        s.refreshed()
                    },
                    None => s.refreshed(),
                }
            }
        }
    }

    /// The state after the script client `client` of the script port `sr` was ended.
    pub open spec fn script_client_killed(self, sr: PortId, client: PortId, now: u64) -> ProxyView {
        let s = if self.has(sr) {
            let sp = self.ports[sr];
            self.with_port(sr, PortView { clients: without(sp.clients, client), ..sp })
        } else {
            self
        };
        s.killed(client, now)
    }
}

/// Removing a connection leaves one identifier fewer.
pub proof fn lemma_connection_removed_dom(s: ProxyView, id: PortId)
    requires
        s.has(id),
        s.ports.dom().finite(),
    ensures
        s.connection_removed(id).ports.dom() == s.ports.dom().remove(id),
        s.connection_removed(id).ports.dom().len() < s.ports.dom().len(),
{
    assert(s.connection_removed(id).ports.dom() =~= s.ports.dom().remove(id));
}

fn detach_from(port: &mut Port, id: PortId)
    ensures
        final(port)@ == detached_port(old(port)@, id),
{
    if port.port_type == PortType::Rs232 {
        let clients = vec_without(&port.clients, id);
        let first = if clients.len() > 0 {
            Some(clients[0])
        } else {
            None
        };
        port.clients = clients;
        if port.peer == Some(id) {
            port.peer = first;
        }
    }
}

impl ProxyState {
    /// Takes `id` off the clients of every serial device.
    pub fn detach_serial_client(&mut self, id: PortId)
        requires
            old(self).wf(),
        ensures
            final(self).wf(),
            final(self)@ == old(self)@.detached(id),
    {
        let ids = self.ports.ids();
        let ghost before = self@;
        let mut k: usize = 0;
        while k < ids.len()
            invariant
                k <= ids@.len(),
                self.wf(),
                before == old(self)@,
                before.wf(),
                forall|x: PortId| ids@.contains(x) <==> before.has(x),
                forall|i: int, j: int| 0 <= i < j < ids@.len() ==> ids@[i] < ids@[j],
                self@ == (ProxyView { ports: self@.ports, ..before }),
                self@.ports.dom() =~= before.ports.dom(),
                forall|j: int| 0 <= j < k ==> #[trigger] self@.ports[ids@[j]] == detached_port(before.ports[ids@[j]], id),
                forall|j: int| k <= j < ids@.len() ==> #[trigger] self@.ports[ids@[j]] == before.ports[ids@[j]],
            decreases ids@.len() - k,
        {
            proof {
                assert(ids@.contains(ids@[k as int]));
                assert(before.has(ids@[k as int]));
                assert(self@.ports.dom().contains(ids@[k as int]));
            }
            let ghost mid = self@.ports;
            assert(mid[ids@[k as int]] == before.ports[ids@[k as int]]);
            if let Some(port) = self.ports.get_mut(ids[k]) {
                detach_from(port, id);
            }
            assert(self@.ports[ids@[k as int]] == detached_port(mid[ids@[k as int]], id));
            proof {
                assert(self@.ports =~= mid.insert(ids@[k as int], detached_port(before.ports[ids@[k as int]], id)));
            }
            k = k + 1;
        }
        proof {
            let after = before.detached(id);
            assert forall|x: PortId| after.ports.dom().contains(x) implies #[trigger] self@.ports[x] == after.ports[x] by {
                assert(ids@.contains(x));
                let j = choose|j: int| 0 <= j < ids@.len() && ids@[j] == x;
                assert(self@.ports[ids@[j]] == detached_port(before.ports[ids@[j]], id));
            }
            assert(self@.ports =~= after.ports);
        }
    }

    fn close_serial(&mut self, id: PortId, now: u64)
        requires
            old(self).wf(),
            old(self)@.has(id),
            now + SERIAL_RECONNECT_INTERVAL <= u64::MAX,
        ensures
            final(self).wf(),
            final(self)@ == old(self)@.serial_closed(id, now),
    {
        let sock = match self.ports.get(id) {
            Some(p) => p.sock,
            None => NO_FD,
        };
        if sock >= 0 {
            self.unwatch(sock);
            self.close_fd(sock);
        }
        if let Some(port) = self.ports.get_mut(id) {
            port.sock = NO_FD;
            port.peer = None;
            port.tx_buf.clear();
            port.connecting = false;
            port.serial_reconnect_at = Some(now + SERIAL_RECONNECT_INTERVAL);
            port.serial_check_at = None;
        }
    }

    fn unuse_script(&mut self, script_ref: Option<PortId>, id: PortId)
        requires
            old(self).wf(),
        ensures
            final(self).wf(),
            final(self)@ == old(self)@.script_unused(script_ref, id),
    {
        if let Some(sr) = script_ref {
            if let Some(sp) = self.ports.get_mut(sr) {
                if sp.rscript == Some(id) {
                    sp.rscript = None;
                }
                sp.script_in_use = false;
            }
        }
    }

    /// Closes the serial device of the port `id`, lost at the time `now`, and has it
    /// reopened later. Its clients stay.
    pub fn mark_serial_disconnected(&mut self, id: PortId, now: u64)
        requires
            old(self).wf(),
            now + SERIAL_RECONNECT_INTERVAL <= u64::MAX,
        ensures
            final(self).wf(),
            final(self)@ == old(self)@.serial_lost(id, now),
    {
        let script_ref = match self.ports.get(id) {
            Some(p) => {
                if !p.is_serial_remote() {
                    return;
                }
                p.script_ref
            },
            None => {
                return;
            },
        };
        self.close_serial(id, now);
        self.unuse_script(script_ref, id);
        self.refresh_nsockhandle();
        self.status_dirty = true;
    }

    fn fall_back(&mut self, id: PortId, spare: RawFd)
        requires
            old(self).wf(),
            old(self)@.has(id),
            0 <= spare,
            fd_ok(spare),
        ensures
            final(self).wf(),
            final(self)@ == old(self)@.fallen_back(id, spare),
    {
        let sock = match self.ports.get(id) {
            Some(p) => p.sock,
            None => NO_FD,
        };
        self.unwatch(sock);
        self.close_fd(sock);
        self.master_rds.insert(spare);
        if let Some(port) = self.ports.get_mut(id) {
            port.sock = spare;
        }
    }

    fn release_remote(&mut self, id: PortId)
        requires
            old(self).wf(),
            old(self)@.has(id),
        ensures
            final(self).wf(),
            final(self)@ == old(self)@.remote_released(id),
    {
        let port_type = match self.ports.get_mut(id) {
            Some(port) => {
                port.peer = None;
                port.port_type
            },
            None => {
                return;
            },
        };
        if port_type == PortType::Listen && self.listen_fd >= 0 {
            let spare = self.listen_fd;
            self.fall_back(id, spare);
            self.listen_fd = NO_FD;
            self.refresh_nsockhandle();
        }
        if port_type == PortType::FifoCon && self.fifo_con_fd >= 0 {
            let spare = self.fifo_con_fd;
            self.fall_back(id, spare);
            self.fifo_con_fd = NO_FD;
            self.refresh_nsockhandle();
        }
        self.status_dirty = true;
    }

    fn replacement(&self, id: PortId) -> (r: Option<PortId>)
        requires
            self@.has(id),
        ensures
            r == self@.replacement(id),
    {
        let peer = match self.ports.get(id) {
            Some(p) => match p.peer {
                Some(peer) => peer,
                None => {
                    return None;
                },
            },
            None => {
                return None;
            },
        };
        match self.ports.get(peer) {
            Some(pp) => {
                if pp.port_type != PortType::Rs232 {
                    return None;
                }
                let mut k: usize = 0;
                proof {
                    assert(pp.clients@.skip(0) =~= pp.clients@);
                }
                while k < pp.clients.len()
                    invariant
                        k <= pp.clients@.len(),
                        self@.has(id),
                        self@.ports[id].peer == Some(peer),
                        self@.has(peer),
                        self@.ports[peer] == pp@,
                        pp.port_type == PortType::Rs232,
                        first_other(self@.ports, pp.clients@, id) == first_other(
                            self@.ports,
                            pp.clients@.skip(k as int),
                            id,
                        ),
                    decreases pp.clients@.len() - k,
                {
                    let c = pp.clients[k];
                    proof {
                        assert(pp.clients@.skip(k as int).skip(1) =~= pp.clients@.skip(k + 1));
                        assert(pp.clients@.skip(k as int)[0] == c);
                    }
                    if c != id && self.ports.contains(c) {
                        return Some(c);
                    }
                    k = k + 1;
                }
                None
            },
            None => None,
        }
    }

    fn leave_script(&mut self, id: PortId)
        requires
            old(self).wf(),
            old(self)@.has(id),
            old(self)@.ports[id].cls != PortClass::Script,
        ensures
            final(self).wf(),
            final(self)@ == old(self)@.script_left(id),
    {
        let (cls, script_ref) = match self.ports.get(id) {
            Some(p) => (p.cls, p.script_ref),
            None => {
                return;
            },
        };
        let sr = match script_ref {
            Some(sr) => sr,
            None => {
                return;
            },
        };
        let replacement = self.replacement(id);
        let rscript = match self.ports.get(sr) {
            Some(sp) => sp.rscript,
            None => None,
        };
        let stays = match rscript {
            Some(rs) => match self.ports.get(rs) {
                Some(p) => p.port_type != PortType::Tcp,
                None => false,
            },
            None => false,
        };
        if let Some(sp) = self.ports.get_mut(sr) {
            if sp.lscript == Some(id) {
                match replacement {
                    Some(other) => {
                        sp.lscript = Some(other);
                    },
                    None => {
                        sp.lscript = None;
                        if !stays {
                            sp.script_in_use = false;
                        }
                    },
                }
            }
            if cls == PortClass::Remote && sp.rscript == Some(id) {
                sp.rscript = None;
                sp.script_in_use = false;
            }
        }
    }

    fn port_close(&mut self, port_type: PortType, fd: RawFd)
        requires
            old(self).wf(),
        ensures
            final(self).wf(),
            final(self)@ == old(self)@.port_closed(port_type, fd),
    {
        if port_type == PortType::Tcp || port_type == PortType::Listen || port_type
            == PortType::FifoCon {
            self.shut_down(fd);
        }
        self.close_fd(fd);
    }

    /// Ends the port `id` at the time `now`.
    pub fn killport(&mut self, id: PortId, now: u64)
        requires
            old(self).wf(),
            now + SERIAL_RECONNECT_INTERVAL <= u64::MAX,
        ensures
            final(self).wf(),
            final(self)@ == old(self)@.killed(id, now),
        decreases old(self)@.ports.dom().len(),
    {
        let (cls, port_type, sock, peer) = match self.ports.get(id) {
            Some(p) => (p.cls, p.port_type, p.sock, p.peer),
            None => {
                return;
            },
        };
        if cls == PortClass::Remote && port_type == PortType::Rs232 {
            self.mark_serial_disconnected(id, now);
            return;
        }
        if cls == PortClass::Local || cls == PortClass::Script {
            self.status_dirty = true;
            return;
        }
        if cls == PortClass::Remote && port_type != PortType::Tcp {
            self.release_remote(id);
            return;
        }
        self.leave_script(id);
        self.unwatch(sock);
        self.port_close(port_type, sock);
        self.detach_serial_client(id);
        let _ = self.remove_port(id);
        proof {
            assert(self@ =~= old(self)@.connection_removed(id));
            lemma_connection_removed_dom(old(self)@, id);
        }
        if let Some(pid) = peer {
            let dies = match self.ports.get(pid) {
                Some(pp) => pp.sock != NO_FD && !pp.is_persistent_remote(),
                None => false,
            };
            if dies {
                self.killport(pid, now);
            }
        }
        self.refresh_nsockhandle();
    }

    /// Ends the client `client` of the script port `sr`.
    pub fn kill_script_client(&mut self, sr: PortId, client: PortId, now: u64)
        requires
            old(self).wf(),
            now + SERIAL_RECONNECT_INTERVAL <= u64::MAX,
        ensures
            final(self).wf(),
            final(self)@ == old(self)@.script_client_killed(sr, client, now),
    {
        if let Some(sp) = self.ports.get_mut(sr) {
            let clients = vec_without(&sp.clients, client);
            sp.clients = clients;
        }
        self.killport(client, now);
    }
}

/// The port stays when it is ended: it is a listening port or a persistent remote.
pub open spec fn survives(p: PortView) -> bool {
    p.cls == PortClass::Local || p.cls == PortClass::Script || p.is_persistent_remote()
}

/// No client is listed in `b` that is not listed in `a`.
pub open spec fn clients_within(a: Seq<PortId>, b: Seq<PortId>) -> bool {
    forall|c: PortId| b.contains(c) ==> a.contains(c)
}

/// Ending a port adds none, keeps every listening port and every persistent remote, and
/// leaves class, transport and settings alone. No serial device gains a client by it.
pub proof fn lemma_kill_keeps_listeners_and_remotes(s: ProxyView, id: PortId, now: u64)
    requires
        s.ports.dom().finite(),
    ensures
        ({
            let k = s.killed(id, now);
            &&& forall|x: PortId| #[trigger] k.has(x) ==> s.has(x) && k.ports[x].cls
                == s.ports[x].cls && k.ports[x].port_type == s.ports[x].port_type
            &&& forall|x: PortId| s.has(x) && survives(s.ports[x]) ==> #[trigger] k.has(x)
            &&& forall|x: PortId| #[trigger]
                k.has(x) && k.ports[x].port_type == PortType::Rs232 ==> clients_within(
                    s.ports[x].clients,
                    k.ports[x].clients,
                )
            &&& k.settings == s.settings
            &&& k.gdb == s.gdb
            &&& k.next_id == s.next_id
        }),
    decreases s.ports.dom().len(),
{
    if s.has(id) {
        let p = s.ports[id];
        if p.is_serial_remote() || p.cls == PortClass::Local || p.cls == PortClass::Script
            || p.is_persistent_remote() {
        } else {
            let r = s.connection_removed(id);
            lemma_connection_removed_dom(s, id);
            lemma_connection_removed_ports(s, id);
            let k1 = match p.peer {
                Some(peer) => if r.dies_with_peer(peer) {
                    r.killed(peer, now)
                } else {
                    r
                },
                None => r,
            };
            if let Some(peer) = p.peer {
                if r.dies_with_peer(peer) {
                    lemma_kill_keeps_listeners_and_remotes(r, peer, now);
                }
            }
            let k = s.killed(id, now);
            assert(k == k1.refreshed());
            assert forall|x: PortId| #[trigger] k.has(x) implies s.has(x) && k.ports[x].cls
                == s.ports[x].cls && k.ports[x].port_type == s.ports[x].port_type by {
                assert(k1.has(x));
                assert(r.has(x));
            }
            assert forall|x: PortId| s.has(x) && survives(s.ports[x]) implies #[trigger] k.has(x) by {
                assert(r.has(x));
                assert(k1.has(x));
            }
            assert forall|x: PortId| #[trigger]
                k.has(x) && k.ports[x].port_type == PortType::Rs232 implies clients_within(
                s.ports[x].clients,
                k.ports[x].clients,
            ) by {
                assert(k1.has(x));
                assert(r.has(x));
            }
        }
    }
}

proof fn lemma_connection_removed_ports(s: ProxyView, id: PortId)
    requires
        s.has(id),
    ensures
        ({
            let r = s.connection_removed(id);
            &&& forall|x: PortId| #[trigger] r.has(x) <==> s.has(x) && x != id
            &&& forall|x: PortId| #[trigger]
                r.has(x) ==> r.ports[x] == detached_port(s.script_left(id).ports[x], id)
            &&& forall|x: PortId| #[trigger]
                r.has(x) && r.ports[x].port_type == PortType::Rs232 ==> clients_within(
                    s.ports[x].clients,
                    r.ports[x].clients,
                ) && !r.ports[x].clients.contains(id)
        }),
{
    let r = s.connection_removed(id);
    assert(r.ports.dom() =~= s.ports.dom().remove(id)) by {
        assert(s.script_left(id).ports.dom() =~= s.ports.dom());
    }
    assert forall|x: PortId| #[trigger] r.has(x) && r.ports[x].port_type == PortType::Rs232 implies clients_within(
        s.ports[x].clients,
        r.ports[x].clients,
    ) && !r.ports[x].clients.contains(id) by {
        let q = s.script_left(id).ports[x];
        assert(r.ports[x] == detached_port(q, id));
        assert(q.clients == s.ports[x].clients);
        lemma_without(q.clients, id);
    }
}

proof fn lemma_kill_only_unwatches(s: ProxyView, id: PortId, now: u64)
    requires
        s.ports.dom().finite(),
        s.has(id) ==> !s.ports[id].is_persistent_remote(),
    ensures
        ({
            let k = s.killed(id, now);
            &&& k.rds.subset_of(s.rds)
            &&& k.wds.subset_of(s.wds)
            &&& s.effects.len() <= k.effects.len()
            &&& forall|i: int| 0 <= i < s.effects.len() ==> #[trigger] k.effects[i] == s.effects[i]
        }),
    decreases s.ports.dom().len(),
{
    if s.has(id) {
        let p = s.ports[id];
        if p.cls != PortClass::Local && p.cls != PortClass::Script {
            let r = s.connection_removed(id);
            lemma_connection_removed_dom(s, id);
            if let Some(peer) = p.peer {
                if r.dies_with_peer(peer) {
                    lemma_kill_only_unwatches(r, peer, now);
                }
            }
        }
    }
}

/// A connection that is ended is gone: it is no port any more, its descriptor is not waited
/// on and is to be closed, and no serial device counts it among its clients.
pub proof fn lemma_killed_connection_is_gone(s: ProxyView, id: PortId, now: u64)
    requires
        s.ports.dom().finite(),
        s.has(id),
        !survives(s.ports[id]),
    ensures
        ({
            let k = s.killed(id, now);
            let fd = s.ports[id].sock;
            &&& !k.has(id)
            &&& !k.rds.contains(fd)
            &&& !k.wds.contains(fd)
            &&& fd >= 0 ==> k.effects.contains(Effect::Close(fd))
            &&& forall|x: PortId| #[trigger]
                k.has(x) && k.ports[x].port_type == PortType::Rs232 ==> !k.ports[x].clients.contains(
                    id,
                )
        }),
{
    let p = s.ports[id];
    let r = s.connection_removed(id);
    lemma_connection_removed_dom(s, id);
    lemma_connection_removed_ports(s, id);
    if p.sock >= 0 {
        assert(r.effects.last() == Effect::Close(p.sock));
        assert(r.effects[r.effects.len() - 1] == Effect::Close(p.sock));
    }
    let k = s.killed(id, now);
    if let Some(peer) = p.peer {
        if r.dies_with_peer(peer) {
            let k1 = r.killed(peer, now);
            lemma_kill_only_unwatches(r, peer, now);
            lemma_kill_keeps_listeners_and_remotes(r, peer, now);
            assert(k == k1.refreshed());
            assert forall|x: PortId| #[trigger] k.has(x) implies r.has(x) && (
            k.ports[x].port_type == PortType::Rs232 ==> clients_within(
                r.ports[x].clients,
                k.ports[x].clients,
            )) by {
                assert(k1.has(x));
            }
            if p.sock >= 0 {
                assert(k.effects[r.effects.len() - 1] == Effect::Close(p.sock));
            }
        } else {
            assert(k == r.refreshed());
        }
    } else {
        assert(k == r.refreshed());
    }
    assert forall|x: PortId| #[trigger]
        k.has(x) && k.ports[x].port_type == PortType::Rs232 implies !k.ports[x].clients.contains(
        id,
    ) by {
        assert(r.has(x));
    }
    if k.has(id) {
        assert(r.has(id));
    }
}

/// Joined connections end together: where two connections are each other's peer, ending one
/// ends the other.
pub proof fn lemma_joined_connections_end_together(s: ProxyView, id: PortId, peer: PortId, now: u64)
    requires
        s.wf(),
        id != peer,
        s.has(id),
        s.has(peer),
        s.ports[id].cls == PortClass::Connection,
        s.ports[peer].cls == PortClass::Connection,
        s.ports[id].peer == Some(peer),
        s.ports[peer].sock >= 0,
    ensures
        !s.killed(id, now).has(id),
        !s.killed(id, now).has(peer),
{
    let r = s.connection_removed(id);
    lemma_connection_removed_dom(s, id);
    lemma_connection_removed_ports(s, id);
    assert(r.has(peer));
    assert(script_ref_ok(s.ports, s.ports[id].script_ref));
    assert(s.script_left(id).ports[peer] == s.ports[peer]);
    assert(r.dies_with_peer(peer));
    lemma_killed_connection_is_gone(s, id, now);
    lemma_killed_connection_is_gone(r, peer, now);
    let k1 = r.killed(peer, now);
    assert(s.killed(id, now) == k1.refreshed());
    assert(!k1.has(peer));
}

/// The debugger outlives the console: ending a console connection to a serial device leaves
/// the device open and attached, every debugger client connected, and the script port in
/// use as before. Only the list of clients, and who speaks for the console, change.
pub proof fn lemma_gdb_survives_console(s: ProxyView, id: PortId, serial: PortId, now: u64)
    requires
        s.wf(),
        s.has(id),
        s.ports[id].cls == PortClass::Connection,
        s.ports[id].peer == Some(serial),
        s.has(serial),
        s.ports[serial].is_serial_remote(),
    ensures
        ({
            let k = s.killed(id, now);
            &&& k.has(serial)
            &&& k.ports[serial] == detached_port(s.ports[serial], id)
            &&& forall|x: PortId|
                x != id && s.has(x) && s.ports[x].port_type != PortType::Rs232
                    && s.ports[id].script_ref != Some(x) ==> #[trigger] k.has(x) && k.ports[x]
                    == s.ports[x]
            &&& s.ports[id].script_ref matches Some(sr) ==> {
                let sp = s.ports[sr];
                &&& k.has(sr)
                &&& sp.port_type != PortType::Rs232 && sp.rscript == Some(serial) ==> k.ports[sr]
                    == (PortView { lscript: k.ports[sr].lscript, ..sp })
            }
        }),
{
    let r = s.connection_removed(id);
    lemma_connection_removed_dom(s, id);
    lemma_connection_removed_ports(s, id);
    let s1 = s.script_left(id);
    assert(script_ref_ok(s.ports, s.ports[id].script_ref));
    assert(s1.ports[serial] == s.ports[serial]);
    assert(r.has(serial));
    assert(!r.dies_with_peer(serial));
    let k = s.killed(id, now);
    assert(k == r.refreshed());
    assert forall|x: PortId|
        x != id && s.has(x) && s.ports[x].port_type != PortType::Rs232 && s.ports[id].script_ref
            != Some(x) implies #[trigger] k.has(x) && k.ports[x] == s.ports[x] by {
        assert(r.has(x));
        assert(s1.ports[x] == s.ports[x]);
    }
    if let Some(sr) = s.ports[id].script_ref {
        assert(r.has(sr));
    }
}

/// A lost serial device keeps its clients: they stay connected and attached while it is
/// reopened, and it is due to be reopened.
pub proof fn lemma_lost_serial_keeps_clients(s: ProxyView, id: PortId, now: u64)
    requires
        s.wf(),
        s.has(id),
        s.ports[id].is_serial_remote(),
        now + SERIAL_RECONNECT_INTERVAL <= u64::MAX,
    ensures
        ({
            let k = s.serial_lost(id, now);
            let p = s.ports[id];
            &&& k.ports.dom() == s.ports.dom()
            &&& k.ports[id].clients == p.clients
            &&& k.ports[id].sock == NO_FD
            &&& k.ports[id].serial_reconnect_at == Some((now + SERIAL_RECONNECT_INTERVAL) as u64)
            &&& !k.rds.contains(p.sock) || p.sock < 0
            &&& !k.wds.contains(p.sock) || p.sock < 0
            &&& forall|x: PortId|
                x != id && s.has(x) && p.script_ref != Some(x) ==> #[trigger] k.ports[x]
                    == s.ports[x]
        }),
{
    assert(script_ref_ok(s.ports, s.ports[id].script_ref));
    assert(s.serial_lost(id, now).ports.dom() =~= s.ports.dom());
}

} // verus!
