//! Laws of serial devices over time: when they are probed, lost, and opened again.
use vstd::prelude::*;
use crate::kill::lemma_connection_removed_dom;
use crate::port::{PortClass, PortId, PortType, PortView, RawFd};
use crate::serial::{
    check_due, invalid_ids, lemma_cleanup_settles_ports, lemma_cleanup_unwatches_invalid,
    lemma_invalid_ids, reconnect_due,
};
use crate::state::{script_ref_ok, Effect, ProxyView};

verus! {

/// A serial remote without a descriptor is to be reopened from the time on that is set for it,
/// and one with a descriptor is to be probed from the time on that is set for that. Nothing
/// else about the port matters, and no other port is ever reopened or probed.
pub proof fn lemma_due_goes_by_time(p: PortView, now: u64)
    ensures
        reconnect_due(p, now) <==> p.cls == PortClass::Remote && p.port_type == PortType::Rs232
            && p.sock < 0 && p.serial_reconnect_at is Some && p.serial_reconnect_at->0 <= now,
        check_due(p, now) <==> p.cls == PortClass::Remote && p.port_type == PortType::Rs232
            && p.sock >= 0 && p.serial_check_at is Some && p.serial_check_at->0 <= now,
{
}

/// A lost serial device is reopened a second after it was lost, and not before, with whatever
/// rate it was configured; meanwhile it is not probed.
pub proof fn lemma_lost_device_is_due_after_a_second(s: ProxyView, id: PortId, t: u64, now: u64)
    requires
        s.wf(),
        s.has(id),
        s.ports[id].cls == PortClass::Remote,
        s.ports[id].port_type == PortType::Rs232,
        t + 1000 <= u64::MAX,
    ensures
        s.serial_lost(id, t).has(id),
        reconnect_due(s.serial_lost(id, t).ports[id], now) <==> now >= t + 1000,
        !check_due(s.serial_lost(id, t).ports[id], now),
        s.killed(id, t) == s.serial_lost(id, t),
        s.serial_checked(id, false, t) == s.serial_lost(id, t),
        s.invalid_dropped(id, t) == s.serial_lost(id, t),
{
    assert(script_ref_ok(s.ports, s.ports[id].script_ref));
}

/// An attempt that failed is repeated a second later, and not before; nothing else changes by
/// it.
pub proof fn lemma_failed_attempt_is_repeated(s: ProxyView, id: PortId, t: u64, now: u64)
    requires
        s.has(id),
        s.ports[id].cls == PortClass::Remote,
        s.ports[id].port_type == PortType::Rs232,
        s.ports[id].sock < 0,
        t + 1000 <= u64::MAX,
    ensures
        ({
            let r = s.serial_retried(id, None, t);
            &&& reconnect_due(r.ports[id], now) <==> now >= t + 1000
            &&& r == (ProxyView { ports: r.ports, ..s })
            &&& r.ports.dom() == s.ports.dom()
            &&& r.ports[id] == (PortView {
                serial_reconnect_at: r.ports[id].serial_reconnect_at,
                ..s.ports[id]
            })
            &&& forall|x: PortId| x != id && s.has(x) ==> #[trigger] r.ports[x] == s.ports[x]
        }),
{
    assert(s.serial_retried(id, None, t).ports.dom() =~= s.ports.dom());
}

/// A device that is open is not opened again, and neither is anything that is no serial
/// remote.
pub proof fn lemma_only_lost_devices_are_reopened(
    s: ProxyView,
    id: PortId,
    opened: Option<(RawFd, Seq<char>)>,
    now: u64,
)
    requires
        !s.has(id) || s.ports[id].cls != PortClass::Remote || s.ports[id].port_type
            != PortType::Rs232 || s.ports[id].sock >= 0,
    ensures
        s.serial_retried(id, opened, now) == s,
{
}

/// A device that was opened again is as good as new: it has the descriptor and the path it was
/// opened with, nothing waits to be written to it, it is waited on, it is probed a second later
/// and not before, and it is not to be reopened. Its clients, its counters, its rate and the
/// path it was configured with stay.
pub proof fn lemma_reopened_device(
    s: ProxyView,
    id: PortId,
    sock: RawFd,
    path: Seq<char>,
    t: u64,
    now: u64,
)
    requires
        s.wf(),
        s.has(id),
        s.ports[id].cls == PortClass::Remote,
        s.ports[id].port_type == PortType::Rs232,
        s.ports[id].sock < 0,
        sock >= 0,
        t + 1000 <= u64::MAX,
    ensures
        ({
            let r = s.serial_retried(id, Some((sock, path)), t);
            let p = s.ports[id];
            let q = r.ports[id];
            &&& r.has(id)
            &&& q.sock == sock && q.name == path
            &&& q.peer is None && q.tx_buf.len() == 0 && !q.connecting
            &&& q.clients == p.clients
            &&& q.rx_bytes == p.rx_bytes && q.tx_bytes == p.tx_bytes
            &&& q.serial_baud == p.serial_baud && q.serial_config_path == p.serial_config_path
            &&& q.script_ref == p.script_ref
            &&& q.mode == if p.script_ref is Some {
                0x6
            } else {
                p.mode
            }
            &&& !reconnect_due(q, now)
            &&& check_due(q, now) <==> now >= t + 1000
            &&& r.rds == s.rds.insert(sock)
            &&& r.wds == s.wds
            &&& r.effects == s.effects
            &&& r.status_dirty
            &&& p.script_ref matches Some(sr) ==> r.ports[sr].rscript == Some(id)
                && r.ports[sr].script_in_use
        }),
{
    assert(script_ref_ok(s.ports, s.ports[id].script_ref));
}

/// A device that answered a probe is probed again a second later, and not before. Nothing else
/// changes.
pub proof fn lemma_probe_is_repeated(s: ProxyView, id: PortId, t: u64, now: u64)
    requires
        s.has(id),
        s.ports[id].cls == PortClass::Remote,
        s.ports[id].port_type == PortType::Rs232,
        s.ports[id].sock >= 0,
        t + 1000 <= u64::MAX,
    ensures
        ({
            let r = s.serial_checked(id, true, t);
            &&& check_due(r.ports[id], now) <==> now >= t + 1000
            &&& !reconnect_due(r.ports[id], now)
            &&& r == (ProxyView { ports: r.ports, ..s })
            &&& r.ports[id] == (PortView {
                serial_check_at: r.ports[id].serial_check_at,
                ..s.ports[id]
            })
            &&& forall|x: PortId| x != id && s.has(x) ==> #[trigger] r.ports[x] == s.ports[x]
        }),
{
}

/// A device that was set up is probed a second later, and not before. It keeps the path as its
/// name and as what it is reopened by, and the rate; it is waited on.
pub proof fn lemma_new_device_is_probed(
    s: ProxyView,
    path: Seq<char>,
    sock: RawFd,
    baud: Option<u32>,
    t: u64,
    now: u64,
)
    requires
        sock >= 0,
        t + 1000 <= u64::MAX,
    ensures
        ({
            let r = s.serial_added(path, sock, baud, t);
            let p = r.ports[s.next_id];
            &&& r.has(s.next_id)
            &&& p.cls == PortClass::Remote && p.port_type == PortType::Rs232
            &&& p.sock == sock && p.name == path
            &&& p.serial_config_path == Some(path) && p.serial_baud == baud
            &&& check_due(p, now) <==> now >= t + 1000
            &&& !reconnect_due(p, now)
            &&& r.rds == s.rds.insert(sock)
        }),
{
}

/// What is left of a lost device: its descriptor is closed, once, and not waited on, what
/// waited to be written is dropped, its clients, its counters and its configuration stay, and
/// the script port that it was the remote end of has none and is not in use.
pub proof fn lemma_lost_device_lets_go(s: ProxyView, id: PortId, t: u64)
    requires
        s.wf(),
        s.has(id),
        s.ports[id].cls == PortClass::Remote,
        s.ports[id].port_type == PortType::Rs232,
    ensures
        ({
            let r = s.serial_lost(id, t);
            let p = s.ports[id];
            let q = r.ports[id];
            &&& q.sock == -1 && q.peer is None && q.tx_buf.len() == 0 && !q.connecting
            &&& q.clients == p.clients
            &&& q.name == p.name
            &&& q.rx_bytes == p.rx_bytes && q.tx_bytes == p.tx_bytes
            &&& q.serial_baud == p.serial_baud && q.serial_config_path == p.serial_config_path
            &&& q.script_ref == p.script_ref && q.mode == p.mode
            &&& p.sock >= 0 ==> r.effects == s.effects.push(Effect::Close(p.sock)) && r.rds
                == s.rds.remove(p.sock) && r.wds == s.wds.remove(p.sock)
            &&& p.sock < 0 ==> r.effects == s.effects && r.rds == s.rds && r.wds == s.wds
            &&& r.status_dirty
            &&& p.script_ref matches Some(sr) ==> {
                &&& !r.ports[sr].script_in_use
                &&& s.ports[sr].rscript == Some(id) ==> r.ports[sr].rscript is None
                &&& s.ports[sr].rscript != Some(id) ==> r.ports[sr].rscript == s.ports[sr].rscript
                &&& r.ports[sr].lscript == s.ports[sr].lscript
                &&& r.ports[sr].clients == s.ports[sr].clients
            }
            &&& r.settings == s.settings && r.gdb == s.gdb && r.next_id == s.next_id
        }),
{
    assert(script_ref_ok(s.ports, s.ports[id].script_ref));
}

/// Only serial remotes can be lost that way.
pub proof fn lemma_nothing_else_is_lost(s: ProxyView, id: PortId, t: u64)
    requires
        !s.has(id) || s.ports[id].cls != PortClass::Remote || s.ports[id].port_type
            != PortType::Rs232,
    ensures
        s.serial_lost(id, t) == s,
{
}

/// A listening port, or a remote other than a serial device, whose descriptor became invalid
/// stays without one: it is closed, once, and not waited on.
pub proof fn lemma_invalid_listener_stays(s: ProxyView, id: PortId, t: u64)
    requires
        s.has(id),
        s.ports[id].cls == PortClass::Local || s.ports[id].cls == PortClass::Script || (
        s.ports[id].cls == PortClass::Remote && s.ports[id].port_type != PortType::Rs232),
        s.ports[id].sock >= 0,
    ensures
        ({
            let r = s.invalid_dropped(id, t);
            let p = s.ports[id];
            &&& r.ports == s.ports.insert(
                id,
                PortView { sock: (-1) as i32, peer: None, tx_buf: Seq::empty(), connecting: false, ..p },
            )
            &&& r.effects == s.effects.push(Effect::Close(p.sock))
            &&& r.rds == s.rds.remove(p.sock)
            &&& r.wds == s.wds.remove(p.sock)
            &&& r.status_dirty
        }),
{
}

/// Where no port has one of the invalid descriptors, cleaning up changes nothing.
pub proof fn lemma_cleanup_of_nothing(s: ProxyView, bad: Seq<RawFd>, now: u64)
    requires
        s.wf(),
        forall|id: PortId|
            s.has(id) && s.ports[id].sock >= 0 ==> !bad.contains((#[trigger] s.ports[id]).sock),
    ensures
        s.cleaned(bad, now) == s,
{
    lemma_invalid_ids(s, bad);
    let ids = invalid_ids(s, bad);
    if ids.len() > 0 {
        assert(ids.contains(ids[0]));
        assert(s.has(ids[0]));
    }
}

/// Cleaning up settles every port with an invalid descriptor: it is waited on no more, a
/// connection is gone, and a listening port or a remote that is no TCP connection stays
/// without a descriptor, a serial device to be reopened a second later.
pub proof fn lemma_cleanup_settles(s: ProxyView, bad: Seq<RawFd>, now: u64, id: PortId)
    requires
        s.wf(),
        s.has(id),
        s.ports[id].sock >= 0,
        bad.contains(s.ports[id].sock),
        now + 1000 <= u64::MAX,
    ensures
        ({
            let r = s.cleaned(bad, now);
            let p = s.ports[id];
            &&& !r.rds.contains(p.sock) && !r.wds.contains(p.sock)
            &&& p.cls == PortClass::Connection || p.cls == PortClass::ScriptClient ==> !r.has(id)
            &&& p.cls == PortClass::Local || p.cls == PortClass::Script || (p.cls
                == PortClass::Remote && p.port_type != PortType::Tcp) ==> r.has(id)
                && r.ports[id].sock == -1
            &&& p.cls == PortClass::Remote && p.port_type == PortType::Rs232
                ==> r.ports[id].serial_reconnect_at == Some((now + 1000) as u64)
        }),
{
    lemma_cleanup_unwatches_invalid(s, bad, now, id);
    lemma_cleanup_settles_ports(s, bad, now, id);
}

/// What is no port is neither probed nor cleaned up.
pub proof fn lemma_missing_ports_are_left(s: ProxyView, id: PortId, alive: bool, t: u64)
    requires
        !s.has(id),
    ensures
        s.serial_checked(id, alive, t) == s,
        s.invalid_dropped(id, t) == s,
{
}

/// The port is a listening port, or a remote that is no TCP connection.
pub open spec fn lasts(p: PortView) -> bool {
    p.cls == PortClass::Local || p.cls == PortClass::Script || (p.cls == PortClass::Remote
        && p.port_type != PortType::Tcp)
}

proof fn lemma_ending_keeps(s: ProxyView, id: PortId, x: PortId, now: u64)
    requires
        s.ports.dom().finite(),
        s.has(x),
        lasts(s.ports[x]),
        id != x,
        s.has(id) ==> s.ports[id].cls != PortClass::Remote || s.ports[id].port_type
            == PortType::Tcp,
    ensures
        ({
            let k = s.killed(id, now);
            &&& k.ports.dom().finite()
            &&& k.has(x)
            &&& k.ports[x].sock == s.ports[x].sock
            &&& k.ports[x].cls == s.ports[x].cls
            &&& k.ports[x].port_type == s.ports[x].port_type
        }),
    decreases s.ports.dom().len(),
{
    if s.has(id) && s.ports[id].cls != PortClass::Local && s.ports[id].cls != PortClass::Script {
        let r = s.connection_removed(id);
        lemma_connection_removed_dom(s, id);
        assert(r.ports.dom().contains(x));
        assert(r.ports[x].sock == s.ports[x].sock && r.ports[x].cls == s.ports[x].cls
            && r.ports[x].port_type == s.ports[x].port_type);
        if let Some(peer) = s.ports[id].peer {
            if r.dies_with_peer(peer) && peer != x {
                lemma_ending_keeps(r, peer, x, now);
            }
            if r.dies_with_peer(peer) && peer == x {
                assert(r.killed(peer, now) == r.dirty());
            }
        }
    }
}

proof fn lemma_dropping_keeps(s: ProxyView, id: PortId, x: PortId, now: u64)
    requires
        s.ports.dom().finite(),
        s.has(x),
        lasts(s.ports[x]),
        id != x,
    ensures
        ({
            let k = s.invalid_dropped(id, now);
            &&& k.ports.dom().finite()
            &&& k.has(x)
            &&& k.ports[x].sock == s.ports[x].sock
            &&& k.ports[x].cls == s.ports[x].cls
            &&& k.ports[x].port_type == s.ports[x].port_type
        }),
{
    if s.has(id) {
        let p = s.ports[id];
        if p.cls == PortClass::Connection || p.cls == PortClass::ScriptClient {
            lemma_ending_keeps(s, id, x, now);
        }
    }
}

proof fn lemma_dropping_all_keeps(s: ProxyView, ids: Seq<PortId>, x: PortId, now: u64)
    requires
        s.ports.dom().finite(),
        s.has(x),
        lasts(s.ports[x]),
        !ids.contains(x),
    ensures
        ({
            let k = s.all_dropped(ids, now);
            &&& k.ports.dom().finite()
            &&& k.has(x)
            &&& k.ports[x].sock == s.ports[x].sock
            &&& k.ports[x].cls == s.ports[x].cls
            &&& k.ports[x].port_type == s.ports[x].port_type
        }),
    decreases ids.len(),
{
    if ids.len() > 0 {
        let rest = ids.drop_last();
        assert(!rest.contains(x)) by {
            if rest.contains(x) {
                let i = choose|i: int| 0 <= i < rest.len() && rest[i] == x;
                assert(ids[i] == x);
            }
        }
        assert(ids[ids.len() - 1] != x);
        lemma_dropping_all_keeps(s, rest, x, now);
        lemma_dropping_keeps(s.all_dropped(rest, now), ids.last(), x, now);
    }
}

/// Cleaning up leaves valid descriptors alone: a listening port, or a remote that is no TCP
/// connection, whose descriptor is not among the invalid ones keeps it.
pub proof fn lemma_cleanup_keeps_valid(s: ProxyView, bad: Seq<RawFd>, x: PortId, now: u64)
    requires
        s.wf(),
        s.has(x),
        lasts(s.ports[x]),
        s.ports[x].sock < 0 || !bad.contains(s.ports[x].sock),
    ensures
        s.cleaned(bad, now).has(x),
        s.cleaned(bad, now).ports[x].sock == s.ports[x].sock,
{
    lemma_invalid_ids(s, bad);
    let ids = invalid_ids(s, bad);
    assert(!ids.contains(x));
    lemma_dropping_all_keeps(s, ids, x, now);
}

} // verus!
