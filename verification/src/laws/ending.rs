//! Laws of ending: what goes, what stays, and who takes whose place.
use vstd::prelude::*;
use crate::accept::Link;
use crate::bytes::without;
use crate::kill::{
    first_other, lemma_connection_removed_dom, lemma_joined_connections_end_together,
    lemma_killed_connection_is_gone,
};
use crate::port::{PortClass, PortId, PortType, PortView, RawFd, SockAddr};
use crate::state::{is_top_fd, lemma_top_fd, script_ref_ok, Effect, ProxyView};

verus! {

/// Ending a listening port only has the status displayed anew.
pub proof fn lemma_listeners_do_not_end(s: ProxyView, id: PortId, now: u64)
    requires
        s.has(id),
        s.ports.dom().finite(),
        s.ports[id].cls == PortClass::Local || s.ports[id].cls == PortClass::Script,
    ensures
        s.killed(id, now) == (ProxyView { status_dirty: true, ..s }),
{
}

/// Ending what is no port does nothing.
pub proof fn lemma_missing_ports_do_not_end(s: ProxyView, id: PortId, now: u64)
    requires
        !s.has(id),
    ensures
        s.killed(id, now) == s,
{
}

/// A datagram remote that is ended stays as it is, without a peer. The same holds of standard
/// input, and of a remote that waits for a connection.
pub proof fn lemma_lasting_remote_only_loses_its_peer(s: ProxyView, id: PortId, now: u64)
    requires
        s.has(id),
        s.ports.dom().finite(),
        s.ports[id].cls == PortClass::Remote,
        s.ports[id].port_type == PortType::Udp || s.ports[id].port_type == PortType::StdinOut || (
        s.ports[id].port_type == PortType::Listen && s.listen_fd < 0) || (s.ports[id].port_type
            == PortType::FifoCon && s.fifo_con_fd < 0),
    ensures
        s.killed(id, now) == (ProxyView {
            ports: s.ports.insert(id, PortView { peer: None, ..s.ports[id] }),
            status_dirty: true,
            ..s
        }),
{
}

/// A remote that connected, and is ended, listens again on the descriptor it listened on
/// before: the connection is closed and not waited on, the listening descriptor is waited on,
/// and the next connection can be accepted.
pub proof fn lemma_listener_listens_again(s: ProxyView, id: PortId, fd: RawFd, now: u64)
    requires
        s.has(id),
        s.ports.dom().finite(),
        s.ports[id].cls == PortClass::Remote,
        s.ports[id].port_type == PortType::Listen,
        s.ports[id].sock >= 0,
        s.listen_fd < 0,
        fd >= 0,
        fd != s.ports[id].sock,
    ensures
        ({
            let on = s.remote_accepted(id, fd);
            let off = on.killed(id, now);
            let listening = s.ports[id].sock;
            &&& on.ports[id] == (PortView { sock: fd, ..s.ports[id] })
            &&& on.listen_fd == listening
            &&& on.rds == s.rds.remove(listening).insert(fd)
            &&& on.effects == s.effects
            &&& off.ports[id] == (PortView { peer: None, ..s.ports[id] })
            &&& off.listen_fd == -1
            &&& off.rds == s.rds.remove(listening).insert(fd).remove(fd).insert(listening)
            &&& off.wds == s.wds.remove(fd)
            &&& off.effects == s.effects.push(Effect::Close(fd))
        }),
{
    let on = s.remote_accepted(id, fd);
    assert(on.ports.dom() =~= s.ports.dom());
}

/// Another connection is not taken while there is one.
pub proof fn lemma_one_connection_at_a_time(s: ProxyView, id: PortId, fd: RawFd)
    ensures
        s.listen_fd >= 0 ==> s.remote_accepted(id, fd) == s,
        s.fifo_con_fd >= 0 ==> s.fifo_connected(id, fd) == s,
{
}

/// A console that was selected on a FIFO, and is ended, gives way to the FIFO again: the
/// connection is closed and not waited on, and the FIFO is.
pub proof fn lemma_fifo_is_read_again(s: ProxyView, id: PortId, fd: RawFd, now: u64)
    requires
        s.has(id),
        s.ports.dom().finite(),
        s.ports[id].cls == PortClass::Remote,
        s.ports[id].port_type == PortType::FifoCon,
        s.ports[id].sock >= 0,
        s.fifo_con_fd < 0,
        fd >= 0,
        fd != s.ports[id].sock,
    ensures
        ({
            let on = s.fifo_connected(id, fd);
            let off = on.killed(id, now);
            let fifo = s.ports[id].sock;
            &&& on.ports[id] == (PortView { sock: fd, ..s.ports[id] })
            &&& on.fifo_con_fd == fifo
            &&& on.rds == s.rds.remove(fifo).insert(fd)
            &&& off.ports[id] == (PortView { peer: None, ..s.ports[id] })
            &&& off.fifo_con_fd == -1
            &&& off.rds == s.rds.remove(fifo).insert(fd).remove(fd).insert(fifo)
            &&& off.effects == s.effects.push(Effect::Close(fd))
        }),
{
    let on = s.fifo_connected(id, fd);
    assert(on.ports.dom() =~= s.ports.dom());
}

/// A FIFO that its writer closed is closed and not waited on; opened again, it is read on its
/// new descriptor.
pub proof fn lemma_fifo_is_reopened(s: ProxyView, id: PortId, fd: RawFd)
    requires
        s.has(id),
        s.ports[id].sock >= 0,
    ensures
        s.fifo_ended(id).effects == s.effects.push(Effect::Close(s.ports[id].sock)),
        s.fifo_ended(id).rds == s.rds.remove(s.ports[id].sock),
        s.fifo_ended(id).ports == s.ports,
        s.fifo_reopened(id, fd).ports == s.ports.insert(id, PortView { sock: fd, ..s.ports[id] }),
        s.fifo_reopened(id, fd).rds == s.rds.insert(fd),
        s.fifo_reopened(id, fd).effects == s.effects,
{
}

/// A connection that ends alone is shut down and closed, in this order, is not waited on, and
/// is no port any more. It ends alone where it has no peer, where that is no port or has no
/// descriptor, and where that is a remote that outlives connections.
pub proof fn lemma_lone_connection_ends(s: ProxyView, id: PortId, now: u64)
    requires
        s.wf(),
        s.has(id),
        s.ports[id].cls == PortClass::Connection || s.ports[id].cls == PortClass::ScriptClient || (
        s.ports[id].cls == PortClass::Remote && s.ports[id].port_type == PortType::Tcp),
        s.ports[id].peer matches Some(peer) ==> !s.has(peer) || s.ports[peer].sock == -1 || (
        s.ports[peer].cls == PortClass::Remote && s.ports[peer].port_type != PortType::Tcp),
        s.ports[id].sock >= 0,
        s.ports[id].port_type == PortType::Tcp,
    ensures
        ({
            let k = s.killed(id, now);
            let fd = s.ports[id].sock;
            &&& k.ports.dom() == s.ports.dom().remove(id)
            &&& k.effects == s.effects.push(Effect::Shutdown(fd)).push(Effect::Close(fd))
            &&& k.rds == s.rds.remove(fd) && k.wds == s.wds.remove(fd)
            &&& k.status_dirty
            &&& forall|x: PortId|
                x != id && s.has(x) && s.ports[x].port_type != PortType::Rs232
                    && s.ports[id].script_ref != Some(x) ==> #[trigger] k.ports[x] == s.ports[x]
        }),
{
    lemma_connection_removed_dom(s, id);
    assert(script_ref_ok(s.ports, s.ports[id].script_ref));
    let r = s.connection_removed(id);
    if let Some(peer) = s.ports[id].peer {
        if r.has(peer) {
            assert(r.ports[peer].sock == s.ports[peer].sock);
            assert(r.ports[peer].cls == s.ports[peer].cls);
            assert(r.ports[peer].port_type == s.ports[peer].port_type);
        }
        assert(!r.dies_with_peer(peer));
    }
}

/// Two connections that are each other's peer end together: both sockets are shut down and
/// closed, the one that was ended first.
pub proof fn lemma_joined_connections_are_closed(
    s: ProxyView,
    id: PortId,
    peer: PortId,
    now: u64,
)
    requires
        s.wf(),
        id != peer,
        s.has(id),
        s.has(peer),
        s.ports[id].cls == PortClass::Connection,
        s.ports[peer].cls == PortClass::Connection,
        s.ports[id].port_type == PortType::Tcp,
        s.ports[peer].port_type == PortType::Tcp,
        s.ports[id].peer == Some(peer),
        s.ports[peer].peer == Some(id),
        s.ports[id].sock >= 0,
        s.ports[peer].sock >= 0,
    ensures
        ({
            let k = s.killed(id, now);
            &&& !k.has(id) && !k.has(peer)
            &&& k.effects == s.effects + seq![
                Effect::Shutdown(s.ports[id].sock),
                Effect::Close(s.ports[id].sock),
                Effect::Shutdown(s.ports[peer].sock),
                Effect::Close(s.ports[peer].sock),
            ]
            &&& k.rds == s.rds.remove(s.ports[id].sock).remove(s.ports[peer].sock)
            &&& k.wds == s.wds.remove(s.ports[id].sock).remove(s.ports[peer].sock)
        }),
{
    lemma_joined_connections_end_together(s, id, peer, now);
    lemma_connection_removed_dom(s, id);
    let r = s.connection_removed(id);
    assert(script_ref_ok(s.ports, s.ports[id].script_ref));
    assert(script_ref_ok(s.ports, s.ports[peer].script_ref));
    assert(r.ports.dom().contains(peer));
    assert(r.ports[peer] == s.ports[peer]);
    assert(r.dies_with_peer(peer));
    lemma_connection_removed_dom(r, peer);
    let r2 = r.connection_removed(peer);
    assert(!r2.has(id));
    assert(r.killed(peer, now) == r2.refreshed());
    assert(r.effects =~= s.effects + seq![
        Effect::Shutdown(s.ports[id].sock),
        Effect::Close(s.ports[id].sock),
    ]);
    assert(s.killed(id, now).effects =~= s.effects + seq![
        Effect::Shutdown(s.ports[id].sock),
        Effect::Close(s.ports[id].sock),
        Effect::Shutdown(s.ports[peer].sock),
        Effect::Close(s.ports[peer].sock),
    ]);
}

proof fn lemma_without_is_filter(v: Seq<PortId>, x: PortId)
    ensures
        without(v, x) == v.filter(|c: PortId| c != x),
    decreases v.len(),
{
    reveal(Seq::filter);
    if v.len() > 0 {
        lemma_without_is_filter(v.drop_last(), x);
    }
}

/// A client that leaves a serial device leaves the others in their order, and where it was the
/// peer of the device the first of them is then. The device stays open.
pub proof fn lemma_client_leaves_the_serial_device(
    s: ProxyView,
    id: PortId,
    serial: PortId,
    now: u64,
)
    requires
        s.wf(),
        s.has(id),
        s.ports[id].cls == PortClass::Connection,
        s.ports[id].peer == Some(serial),
        s.has(serial),
        s.ports[serial].cls == PortClass::Remote,
        s.ports[serial].port_type == PortType::Rs232,
    ensures
        ({
            let k = s.killed(id, now);
            let left = s.ports[serial].clients.filter(|c: PortId| c != id);
            &&& !k.has(id)
            &&& k.has(serial)
            &&& k.ports[serial].clients == left
            &&& k.ports[serial].sock == s.ports[serial].sock
            &&& k.ports[serial].tx_buf == s.ports[serial].tx_buf
            &&& s.ports[serial].peer == Some(id) ==> k.ports[serial].peer == if left.len() > 0 {
                Some(left[0])
            } else {
                None
            }
            &&& s.ports[serial].peer != Some(id) ==> k.ports[serial].peer == s.ports[serial].peer
        }),
{
    crate::kill::lemma_gdb_survives_console(s, id, serial, now);
    lemma_killed_connection_is_gone(s, id, now);
    lemma_without_is_filter(s.ports[serial].clients, id);
}

/// A script client that is ended leaves its script port, and the others there in their order.
pub proof fn lemma_script_client_leaves(s: ProxyView, sr: PortId, client: PortId, now: u64)
    requires
        s.wf(),
        s.has(sr),
        s.ports[sr].cls == PortClass::Script,
        s.ports[sr].port_type == PortType::Tcp,
        s.has(client),
        client != sr,
        s.ports[client].cls == PortClass::ScriptClient,
        s.ports[client].peer is None,
        s.ports[client].script_ref == Some(sr),
        s.ports[sr].lscript != Some(client),
    ensures
        ({
            let k = s.script_client_killed(sr, client, now);
            &&& !k.has(client)
            &&& k.has(sr)
            &&& k.ports[sr] == (PortView {
                clients: s.ports[sr].clients.filter(|c: PortId| c != client),
                ..s.ports[sr]
            })
        }),
{
    let clients = without(s.ports[sr].clients, client);
    lemma_without_is_filter(s.ports[sr].clients, client);
    let t = s.with_port(sr, PortView { clients, ..s.ports[sr] });
    assert(t.ports.dom() =~= s.ports.dom());
    lemma_connection_removed_dom(t, client);
}

/// The script port is free again when its only connection ends: where the client that is its
/// local end leaves and no other client of a serial device can take its place, it has no local
/// end, and it is not in use any more unless its remote end outlives connections.
pub proof fn lemma_script_port_is_freed(s: ProxyView, id: PortId, sr: PortId)
    requires
        s.has(id),
        s.has(sr),
        id != sr,
        s.ports[id].cls == PortClass::Connection,
        s.ports[id].script_ref == Some(sr),
        s.ports[sr].lscript == Some(id),
        s.ports[id].peer is None || !s.has(s.ports[id].peer->0) || s.ports[s.ports[id].peer->0].port_type
            != PortType::Rs232,
    ensures
        ({
            let sp = s.ports[sr];
            let lasts = sp.rscript is Some && s.has(sp.rscript->0)
                && s.ports[sp.rscript->0].port_type != PortType::Tcp;
            s.script_left(id).ports[sr] == (PortView {
                lscript: None,
                script_in_use: sp.script_in_use && lasts,
                ..sp
            })
        }),
{
}

proof fn lemma_first_other_is_first(
    ports: Map<PortId, PortView>,
    clients: Seq<PortId>,
    id: PortId,
    k: int,
)
    requires
        0 <= k < clients.len(),
        clients[k] != id,
        ports.dom().contains(clients[k]),
        forall|j: int| 0 <= j < k ==> clients[j] == id || !ports.dom().contains(clients[j]),
    ensures
        first_other(ports, clients, id) == Some(clients[k]),
    decreases k,
{
    if k > 0 {
        assert(clients[0] == id || !ports.dom().contains(clients[0]));
        let rest = clients.skip(1);
        assert(rest[k - 1] == clients[k]);
        assert forall|j: int| 0 <= j < k - 1 implies rest[j] == id || !ports.dom().contains(
            rest[j],
        ) by {
            assert(rest[j] == clients[j + 1]);
        }
        lemma_first_other_is_first(ports, rest, id, k - 1);
    }
}

/// The console is handed on: where the client that is the local end of the script port leaves
/// a serial device, the first of the other clients of the device takes its place, and the
/// script port stays in use as it was.
pub proof fn lemma_console_is_handed_on(
    s: ProxyView,
    id: PortId,
    sr: PortId,
    serial: PortId,
    k: int,
)
    requires
        s.has(id),
        s.has(sr),
        id != sr,
        s.ports[id].cls == PortClass::Connection,
        s.ports[id].script_ref == Some(sr),
        s.ports[sr].lscript == Some(id),
        s.ports[id].peer == Some(serial),
        s.has(serial),
        s.ports[serial].port_type == PortType::Rs232,
        0 <= k < s.ports[serial].clients.len(),
        s.ports[serial].clients[k] != id,
        s.has(s.ports[serial].clients[k]),
        forall|j: int|
            0 <= j < k ==> s.ports[serial].clients[j] == id || !s.has(s.ports[serial].clients[j]),
    ensures
        s.script_left(id).ports[sr] == (PortView {
            lscript: Some(s.ports[serial].clients[k]),
            ..s.ports[sr]
        }),
{
    assert forall|j: int| 0 <= j < k implies s.ports[serial].clients[j] == id
        || !s.ports.dom().contains(s.ports[serial].clients[j]) by {
        assert(s.ports[serial].clients[j] == id || !s.has(s.ports[serial].clients[j]));
    }
    lemma_first_other_is_first(s.ports, s.ports[serial].clients, id, k);
}

/// A port that is neither end of its script port leaves it as it was.
pub proof fn lemma_bystander_leaves(s: ProxyView, id: PortId, sr: PortId)
    requires
        s.has(sr),
        id != sr,
        s.ports[id].script_ref == Some(sr),
        s.ports[sr].lscript != Some(id),
        s.ports[id].cls != PortClass::Remote || s.ports[sr].rscript != Some(id),
    ensures
        s.script_left(id).ports == s.ports,
{
    assert(s.script_left(id).ports =~= s.ports);
}

proof fn lemma_top_fd_exists(ports: Map<PortId, PortView>)
    requires
        ports.dom().finite(),
        forall|id: PortId| ports.dom().contains(id) ==> (#[trigger] ports[id]).sock >= -1,
    ensures
        exists|m: int| is_top_fd(ports, m),
    decreases ports.dom().len(),
{
    if ports.dom().len() == 0 {
        assert(ports.dom() =~= Set::empty());
        assert(is_top_fd(ports, -1));
    } else {
        let id = ports.dom().choose();
        let rest = ports.remove(id);
        lemma_top_fd_exists(rest);
        let m = choose|m: int| is_top_fd(rest, m);
        let fd = ports[id].sock as int;
        if fd > m {
            assert forall|x: PortId| ports.dom().contains(x) implies (#[trigger] ports[x]).sock
                <= fd by {
                if x != id {
                    assert(rest.dom().contains(x) && rest[x] == ports[x]);
                }
            }
            assert(is_top_fd(ports, fd));
        } else {
            assert forall|x: PortId| ports.dom().contains(x) implies (#[trigger] ports[x]).sock
                <= m by {
                if x != id {
                    assert(rest.dom().contains(x) && rest[x] == ports[x]);
                }
            }
            if m != -1 {
                let x = choose|x: PortId| rest.dom().contains(x) && (#[trigger] rest[x]).sock == m;
                assert(ports[x].sock == m);
            }
            assert(is_top_fd(ports, m));
        }
    }
}

/// The range to wait on, when it is brought up to date, reaches over the descriptor of every
/// port, and no further: it ends right behind one of them, or is empty.
pub proof fn lemma_range_reaches_every_port(s: ProxyView)
    requires
        s.wf(),
    ensures
        forall|id: PortId|
            s.has(id) ==> (#[trigger] s.ports[id]).sock < s.refreshed().nsockhandle,
        s.refreshed().nsockhandle == 0 || exists|id: PortId|
            s.has(id) && (#[trigger] s.ports[id]).sock == s.refreshed().nsockhandle - 1,
        s.refreshed() == (ProxyView { nsockhandle: s.refreshed().nsockhandle, ..s }),
{
    lemma_top_fd_exists(s.ports);
    let m = choose|m: int| is_top_fd(s.ports, m);
    lemma_top_fd(s.ports, m);
    if m != -1 {
        let id = choose|id: PortId| s.ports.dom().contains(id) && (#[trigger] s.ports[id]).sock == m;
        assert(s.has(id));
    }
    assert(-1 <= m < 1024);
    assert forall|id: PortId| s.has(id) implies (#[trigger] s.ports[id]).sock
        < s.refreshed().nsockhandle by {
        assert(s.ports.dom().contains(id));
    }
}

/// The range to wait on reaches over the descriptor of every port and ends right behind one of
/// them, or is empty.
pub open spec fn range_fits(s: ProxyView) -> bool {
    &&& forall|id: PortId| s.has(id) ==> (#[trigger] s.ports[id]).sock < s.nsockhandle
    &&& s.nsockhandle == 0 || exists|id: PortId|
        s.has(id) && (#[trigger] s.ports[id]).sock == s.nsockhandle - 1
}

proof fn lemma_refreshed_fits(s: ProxyView, t: ProxyView)
    requires
        s.ports.dom().finite(),
        forall|id: PortId| s.has(id) ==> -1 <= (#[trigger] s.ports[id]).sock < 1024,
        t.nsockhandle == s.refreshed().nsockhandle,
        t.ports.dom() == s.ports.dom(),
        forall|id: PortId| s.has(id) ==> (#[trigger] t.ports[id]).sock == s.ports[id].sock,
    ensures
        range_fits(t),
{
    lemma_top_fd_exists(s.ports);
    let m = choose|m: int| is_top_fd(s.ports, m);
    lemma_top_fd(s.ports, m);
    if m != -1 {
        let id = choose|id: PortId| s.ports.dom().contains(id) && (#[trigger] s.ports[id]).sock == m;
        assert(s.has(id));
        assert(t.has(id) && t.ports[id].sock == t.nsockhandle - 1);
    }
    assert(-1 <= m < 1024);
    assert forall|id: PortId| t.has(id) implies (#[trigger] t.ports[id]).sock < t.nsockhandle by {
        assert(s.has(id));
        assert(s.ports[id].sock <= m);
    }
}

/// What is set up as the remote is within the range to wait on.
pub proof fn lemma_range_fits_after_setup(
    s: ProxyView,
    port_type: PortType,
    host: Seq<char>,
    addr: SockAddr,
    path: Seq<char>,
    sock: RawFd,
    baud: Option<u32>,
    now: u64,
)
    requires
        s.wf(),
        s.next_id < usize::MAX,
        0 <= sock < 1024,
    ensures
        range_fits(s.remote_added(port_type, host, addr, Some(sock))),
        range_fits(s.remote_added(port_type, host, addr, None)),
        range_fits(s.serial_added(path, sock, baud, now)),
        range_fits(s.fifo_added(host, path, sock)),
{
    lemma_wf_range(s);
    let a = s.remote_added(port_type, host, addr, Some(sock));
    lemma_refreshed_fits(ProxyView { ports: a.ports, ..s }, a);
    let b = s.remote_added(port_type, host, addr, None);
    lemma_refreshed_fits(ProxyView { ports: b.ports, ..s }, b);
    let c = s.serial_added(path, sock, baud, now);
    lemma_refreshed_fits(ProxyView { ports: c.ports, ..s }, c);
    let d = s.fifo_added(host, path, sock);
    lemma_refreshed_fits(ProxyView { ports: d.ports, ..s }, d);
}

proof fn lemma_wf_range(s: ProxyView)
    requires
        s.wf(),
    ensures
        s.ports.dom().finite(),
        forall|id: PortId| s.has(id) ==> -1 <= (#[trigger] s.ports[id]).sock < 1024,
{
    assert forall|id: PortId| s.has(id) implies -1 <= (#[trigger] s.ports[id]).sock < 1024 by {
        assert(s.ports.dom().contains(id));
    }
}

/// A descriptor that a port comes to have is within the range to wait on: that of a script
/// client, of a serial device that was opened again, of a connection from the remote, of a
/// console that was selected, and of a FIFO that was opened again.
pub proof fn lemma_range_fits_new_descriptors(
    s: ProxyView,
    id: PortId,
    fd: RawFd,
    path: Seq<char>,
    now: u64,
)
    requires
        s.wf(),
        s.has(id),
        s.next_id < usize::MAX,
        0 <= fd < 1024,
    ensures
        range_fits(s.script_accepted(id, fd).0),
        s.ports[id].cls == PortClass::Remote && s.ports[id].port_type == PortType::Rs232
            && s.ports[id].sock < 0 ==> range_fits(s.serial_retried(id, Some((fd, path)), now)),
        s.listen_fd < 0 ==> range_fits(s.remote_accepted(id, fd)),
        s.fifo_con_fd < 0 ==> range_fits(s.fifo_connected(id, fd)),
        range_fits(s.fifo_reopened(id, fd)),
{
    lemma_wf_range(s);
    assert(script_ref_ok(s.ports, s.ports[id].script_ref));
    let a = s.script_accepted(id, fd).0;
    lemma_refreshed_fits(ProxyView { ports: a.ports, ..s }, a);
    let b = s.serial_retried(id, Some((fd, path)), now);
    if s.ports[id].cls == PortClass::Remote && s.ports[id].port_type == PortType::Rs232
        && s.ports[id].sock < 0 {
        lemma_refreshed_fits(ProxyView { ports: b.ports, ..s }, b);
    }
    let c = s.remote_accepted(id, fd);
    if s.listen_fd < 0 {
        lemma_refreshed_fits(ProxyView { ports: c.ports, ..s }, c);
    }
    let d = s.fifo_connected(id, fd);
    if s.fifo_con_fd < 0 {
        lemma_refreshed_fits(ProxyView { ports: d.ports, ..s }, d);
    }
    let e = s.fifo_reopened(id, fd);
    lemma_refreshed_fits(ProxyView { ports: e.ports, ..s }, e);
}

/// A lost serial device, and a lone connection that ended, leave no more than the range needs.
pub proof fn lemma_range_fits_what_is_left(s: ProxyView, id: PortId, now: u64)
    requires
        s.wf(),
        s.has(id),
    ensures
        s.ports[id].cls == PortClass::Remote && s.ports[id].port_type == PortType::Rs232
            ==> range_fits(s.serial_lost(id, now)),
        s.ports[id].cls == PortClass::Connection && s.ports[id].peer is None ==> range_fits(
            s.killed(id, now),
        ),
{
    lemma_wf_range(s);
    assert(script_ref_ok(s.ports, s.ports[id].script_ref));
    if s.ports[id].cls == PortClass::Remote && s.ports[id].port_type == PortType::Rs232 {
        let a = s.serial_lost(id, now);
        lemma_refreshed_fits(ProxyView { ports: a.ports, ..s }, a);
    }
    if s.ports[id].cls == PortClass::Connection && s.ports[id].peer is None {
        let b = s.killed(id, now);
        let r = s.connection_removed(id);
        lemma_connection_removed_dom(s, id);
        assert(b == r.refreshed());
        assert forall|x: PortId| r.has(x) implies -1 <= (#[trigger] r.ports[x]).sock < 1024 by {
            assert(s.has(x));
            assert(r.ports[x].sock == s.ports[x].sock);
        }
        lemma_refreshed_fits(r, b);
    }
}

/// A datagram remote outlives the clients that were joined to it, as it is.
pub proof fn lemma_datagram_remote_outlives_clients(
    s: ProxyView,
    id: PortId,
    rid: PortId,
    now: u64,
)
    requires
        s.wf(),
        s.has(id),
        s.ports[id].cls == PortClass::Connection,
        s.ports[id].peer == Some(rid),
        s.has(rid),
        s.ports[rid].cls == PortClass::Remote,
        s.ports[rid].port_type == PortType::Udp || s.ports[rid].port_type == PortType::Listen
            || s.ports[rid].port_type == PortType::FifoCon,
    ensures
        !s.killed(id, now).has(id),
        s.killed(id, now).has(rid),
        s.killed(id, now).ports[rid] == s.ports[rid],
{
    lemma_connection_removed_dom(s, id);
    let r = s.connection_removed(id);
    assert(script_ref_ok(s.ports, s.ports[id].script_ref));
    assert(r.ports.dom().contains(rid));
    assert(r.ports[rid] == s.ports[rid]);
    assert(!r.ports.dom().contains(id));
}

/// A remote connection that ends leaves its script port without a remote end, and not in use.
pub proof fn lemma_remote_leaves_its_script_port(s: ProxyView, id: PortId, sr: PortId)
    requires
        s.has(sr),
        id != sr,
        s.ports[id].cls == PortClass::Remote,
        s.ports[id].script_ref == Some(sr),
        s.ports[sr].rscript == Some(id),
        s.ports[sr].lscript != Some(id),
    ensures
        s.script_left(id).ports[sr] == (PortView {
            rscript: None,
            script_in_use: false,
            ..s.ports[sr]
        }),
{
}

/// Streams are shut down before they are closed; other descriptors are only closed.
pub proof fn lemma_how_descriptors_are_closed(s: ProxyView, port_type: PortType, fd: RawFd)
    requires
        fd >= 0,
    ensures
        s.port_closed(port_type, fd).effects == if port_type == PortType::Tcp || port_type
            == PortType::Listen || port_type == PortType::FifoCon {
            s.effects.push(Effect::Shutdown(fd)).push(Effect::Close(fd))
        } else {
            s.effects.push(Effect::Close(fd))
        },
        s.port_closed(port_type, (-1) as i32).effects == s.effects,
{
}

/// From `s` to `t` the ports stayed, with their descriptors, and so did the range to wait on.
spec fn same_descriptors(s: ProxyView, t: ProxyView) -> bool {
    &&& t.ports.dom() == s.ports.dom()
    &&& t.nsockhandle == s.nsockhandle
    &&& forall|x: PortId| s.has(x) ==> (#[trigger] t.ports[x]).sock == s.ports[x].sock
}

proof fn lemma_script_fields_keep_descriptors(s: ProxyView, id: PortId, sr: PortId, mode: u32)
    requires
        s.has(id),
        s.has(sr),
    ensures
        same_descriptors(s, s.scripted(id, sr, mode)),
        same_descriptors(s, s.local_end(sr, id)),
        same_descriptors(s, s.remote_end(sr, id)),
{
    assert(s.scripted(id, sr, mode).ports.dom() =~= s.ports.dom());
    assert(s.local_end(sr, id).ports.dom() =~= s.ports.dom());
    assert(s.remote_end(sr, id).ports.dom() =~= s.ports.dom());
}

proof fn lemma_joining_keeps_descriptors(s: ProxyView, sr: PortId, client: PortId, peer: PortId)
    requires
        s.has(sr),
        s.has(client),
        s.has(peer),
    ensures
        same_descriptors(s, s.script_joined(sr, client, peer)),
{
    let sp = s.ports[sr];
    let a = s.scripted(client, sr, sp.lmode);
    lemma_script_fields_keep_descriptors(s, client, sr, sp.lmode);
    if s.ports[peer].port_type == PortType::Rs232 {
        let b = a.local_end(sr, client);
        lemma_script_fields_keep_descriptors(a, client, sr, 0);
        let c = b.scripted(peer, sr, sp.rmode);
        lemma_script_fields_keep_descriptors(b, peer, sr, sp.rmode);
        lemma_script_fields_keep_descriptors(c, peer, sr, 0);
    } else {
        let b = a.scripted(peer, sr, sp.rmode);
        lemma_script_fields_keep_descriptors(a, peer, sr, sp.rmode);
        let c = b.local_end(sr, client);
        lemma_script_fields_keep_descriptors(b, client, sr, 0);
        lemma_script_fields_keep_descriptors(c, peer, sr, 0);
    }
}

proof fn lemma_opening_keeps_range(s: ProxyView, client: PortId, link: Link)
    requires
        s.ports.dom().finite(),
        forall|id: PortId| s.has(id) ==> -1 <= (#[trigger] s.ports[id]).sock < 1024,
        s.has(client),
        0 <= link.sock < 1024,
    ensures
        ({
            let (t, peer) = s.remote_opened(client, Some(link));
            &&& t.ports.dom().finite()
            &&& forall|id: PortId| t.has(id) ==> -1 <= (#[trigger] t.ports[id]).sock < 1024
            &&& t.has(client)
            &&& peer matches Some(p) ==> t.has(p)
            &&& forall|id: PortId| s.has(id) ==> #[trigger] t.has(id)
        }),
{
}

/// A client of the local port, and the connection that was made for it, are within the range
/// to wait on.
pub proof fn lemma_range_fits_new_clients(
    s: ProxyView,
    id: PortId,
    rid: PortId,
    nsock: RawFd,
    link: Link,
)
    requires
        s.wf(),
        s.has(id),
        s.ports[id].remote == Some(rid),
        s.has(rid),
        s.ports[rid].cls == PortClass::Remote,
        (s.ports[rid].port_type == PortType::Tcp && s.ports[rid].serv_addr is Some)
            || s.ports[rid].port_type == PortType::Rs232 || s.ports[rid].port_type
            == PortType::Udp,
        s.next_id < usize::MAX - 1,
        0 <= nsock < 1024,
        0 <= link.sock < 1024,
    ensures
        range_fits(s.local_accepted(id, nsock, Some(link)).0),
        s.ports[rid].port_type == PortType::Tcp ==> range_fits(
            s.remote_opened(id, Some(link)).0,
        ),
{
    if s.ports[rid].port_type == PortType::Tcp {
        let u = s.remote_opened(id, Some(link)).0;
        lemma_wf_range(s);
        lemma_refreshed_fits(ProxyView { ports: u.ports, ..s }, u);
    }
    lemma_wf_range(s);
    assert(rid < s.next_id && id < s.next_id);
    let sref = s.ports[id].script_ref;
    assert(script_ref_ok(s.ports, sref));
    assert(sref matches Some(sr) ==> sr < s.next_id && s.ports[sr].cls == PortClass::Script);
    let t = s.local_accepted(id, nsock, Some(link)).0;
    let client = s.next_id;
    let blank = PortView {
        sock: nsock,
        is_local: true,
        remote: Some(rid),
        ..PortView::fresh(PortType::Tcp, PortClass::Connection)
    };
    let s0 = s.allocated(PortType::Tcp, PortClass::Connection).with_port(client, blank);
    lemma_opening_keeps_range(s0, client, link);
    let (s1, peer) = s0.remote_opened(client, Some(link));
    assert(peer is Some);
    let s2 = s1.with_port(client, PortView { peer, ..s1.ports[client] });
    let s3 = ProxyView { rds: s2.rds.insert(nsock), ..s2 }.refreshed().dirty();
    assert(s2.ports.dom() =~= s1.ports.dom());
    if let Some(sr) = sref {
        assert(s0.has(sr));
        assert(s3.has(sr) && s3.has(client) && s3.has(peer->0));
        lemma_joining_keeps_descriptors(s3, sr, client, peer->0);
        assert(t == s3.script_joined(sr, client, peer->0));
    } else {
        assert(t == s3);
    }
    lemma_refreshed_fits(s2, t);
}

} // verus!
