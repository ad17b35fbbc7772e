//! Laws of what a port receives: how it is counted, and where it goes.
use vstd::prelude::*;
use crate::port::{PortClass, PortId, PortType, PortView, SockAddr};
use crate::receive::ReadKind;
use crate::round::{OnFail, TaskView};
use crate::splitter::console_part;
use crate::state::ProxyView;

verus! {

/// How a port is served goes by its class and its transport. A remote that connects by itself,
/// or that is selected on a FIFO, is served as a connection while it has one.
pub proof fn lemma_ports_are_served_by_class(s: ProxyView, id: PortId)
    ensures
        !s.has(id) ==> s.read_kind(id) == ReadKind::Nothing,
        s.has(id) ==> {
            let p = s.ports[id];
            let k = s.read_kind(id);
            &&& k == ReadKind::LocalAccept <==> p.cls == PortClass::Local && p.port_type
                == PortType::Tcp
            &&& k == ReadKind::LocalData <==> p.cls == PortClass::Local && (p.port_type
                == PortType::Udp || p.port_type == PortType::StdinOut)
            &&& k == ReadKind::ScriptAccept <==> p.cls == PortClass::Script && p.port_type
                == PortType::Tcp
            &&& k == ReadKind::ScriptUnsupported <==> p.cls == PortClass::Script && p.port_type
                != PortType::Tcp
            &&& k == ReadKind::ScriptClient <==> p.cls == PortClass::ScriptClient
            &&& k == ReadKind::RemoteAccept <==> p.cls == PortClass::Remote && p.port_type
                == PortType::Listen && s.listen_fd < 0
            &&& k == ReadKind::FifoSelection <==> p.cls == PortClass::Remote && p.port_type
                == PortType::FifoCon && s.fifo_con_fd < 0
            &&& k == ReadKind::RemotePort <==> p.cls == PortClass::Connection || (p.cls
                == PortClass::Remote && !(p.port_type == PortType::Listen && s.listen_fd < 0) && !(
            p.port_type == PortType::FifoCon && s.fifo_con_fd < 0))
        },
{
}

/// Received bytes are counted on the port that received them, up to the largest count, and a
/// datagram port answers from then on to whoever sent them. Nothing else changes.
pub proof fn lemma_received_bytes_are_counted(
    s: ProxyView,
    id: PortId,
    n: nat,
    src: Option<SockAddr>,
)
    requires
        s.has(id),
        n > 0,
    ensures
        ({
            let t = s.read_from(id, n as int, src);
            let p = s.ports[id];
            &&& t.ports == s.ports.insert(
                id,
                PortView {
                    rx_bytes: t.ports[id].rx_bytes,
                    serv_addr: if p.port_type == PortType::Udp && src is Some {
                        src
                    } else {
                        p.serv_addr
                    },
                    ..p
                },
            )
            &&& p.rx_bytes + n <= u64::MAX ==> t.ports[id].rx_bytes == p.rx_bytes + n
            &&& p.rx_bytes + n > u64::MAX ==> t.ports[id].rx_bytes == u64::MAX
            &&& t == (ProxyView { ports: t.ports, status_dirty: true, ..s })
        }),
        s.read_from(id, 0, src) == s,
{
    let t = s.read_from(id, n as int, src);
    let p = s.ports[id];
    assert(t.ports =~= s.ports.insert(
        id,
        PortView {
            rx_bytes: t.ports[id].rx_bytes,
            serv_addr: if p.port_type == PortType::Udp && src is Some {
                src
            } else {
                p.serv_addr
            },
            ..p
        },
    ));
}

/// Sent bytes are counted on the port that they were sent on, up to the largest count.
pub proof fn lemma_sent_bytes_are_counted(s: ProxyView, id: PortId, n: nat)
    requires
        s.has(id),
    ensures
        ({
            let t = s.sent(id, n as int);
            let p = s.ports[id];
            &&& t.ports == s.ports.insert(
                id,
                PortView { tx_bytes: t.ports[id].tx_bytes, ..p },
            )
            &&& p.tx_bytes + n <= u64::MAX ==> t.ports[id].tx_bytes == p.tx_bytes + n
            &&& p.tx_bytes + n > u64::MAX ==> t.ports[id].tx_bytes == u64::MAX
            &&& t == (ProxyView { ports: t.ports, status_dirty: true, ..s })
        }),
{
}

/// What a connection sends goes to its peer as it is, in one write, if the peer has a
/// descriptor, and is then shared with script clients; nothing else is written. A write that
/// fails ends the connection.
pub proof fn lemma_connection_writes_to_its_peer(
    s: ProxyView,
    id: PortId,
    peer: PortId,
    data: Seq<u8>,
    src: Option<SockAddr>,
    now: u64,
)
    requires
        s.has(id),
        s.ports[id].cls != PortClass::Remote || s.ports[id].port_type != PortType::Rs232,
        s.ports[id].peer == Some(peer),
        s.ports[id].mode & 0x4 == 0 || !s.settings.gdb_split || s.ports[id].script_ref is None
            || !s.ports[s.ports[id].script_ref->0].break_port,
        !s.settings.telnet_negotiation,
        data.len() > 0,
    ensures
        ({
            let round = s.remote_read(id, data, src, now).1;
            &&& round.breaks.len() == 0 && !round.stop && round.marked.len() == 0
            &&& round.tasks == if s.has(peer) && s.ports[peer].sock >= 0 {
                seq![
                    TaskView::Write { to: peer, data, oob: false, on_fail: OnFail::Stop(id) },
                    TaskView::Script { from: id, data },
                ]
            } else {
                seq![TaskView::Script { from: id, data }]
            }
        }),
{
    let s1 = s.remote_read(id, data, src, now).0;
    assert(s1.is_open(peer) == (s.has(peer) && s.ports[peer].sock >= 0));
}

/// What a remote other than a serial device sends, where a debugger port filters it: the peer
/// gets what is not debugger traffic, if there is any, and script clients the whole.
pub proof fn lemma_filtered_remote_writes_to_its_peer(
    s: ProxyView,
    id: PortId,
    peer: PortId,
    sr: PortId,
    data: Seq<u8>,
    src: Option<SockAddr>,
    now: u64,
)
    requires
        s.has(id),
        s.ports[id].cls != PortClass::Remote || s.ports[id].port_type != PortType::Rs232,
        s.ports[id].peer == Some(peer),
        s.ports[id].mode & 0x4 != 0,
        s.ports[id].script_ref == Some(sr),
        s.settings.gdb_split,
        s.ports[sr].break_port,
        s.has(peer),
        s.ports[peer].sock >= 0,
        !s.settings.telnet_negotiation,
        data.len() > 0,
    ensures
        ({
            let round = s.remote_read(id, data, src, now).1;
            let part = console_part(s.gdb, data);
            &&& round.breaks.len() == 0 && !round.stop
            &&& round.tasks == if part.len() > 0 {
                seq![
                    TaskView::Write { to: peer, data: part, oob: false, on_fail: OnFail::Stop(id) },
                    TaskView::Script { from: id, data },
                ]
            } else {
                seq![TaskView::Script { from: id, data }]
            }
        }),
{
    let s1 = s.remote_read(id, data, src, now).0;
    assert(s1.is_open(peer));
}

/// A connection without a peer is still shared with script clients.
pub proof fn lemma_unpaired_data_is_shared(
    s: ProxyView,
    id: PortId,
    data: Seq<u8>,
    src: Option<SockAddr>,
    now: u64,
)
    requires
        s.has(id),
        s.ports[id].cls != PortClass::Remote || s.ports[id].port_type != PortType::Rs232,
        s.ports[id].peer is None,
        !s.settings.telnet_negotiation,
        data.len() > 0,
    ensures
        s.remote_read(id, data, src, now).1.tasks == seq![TaskView::Script { from: id, data }],
{
}

/// The end of a stream ends the port, and no other port is read in the same turn.
pub proof fn lemma_end_of_stream(s: ProxyView, id: PortId, src: Option<SockAddr>, now: u64)
    ensures
        s.remote_read(id, Seq::empty(), src, now).0 == s.killed(id, now),
        s.remote_read(id, Seq::empty(), src, now).1.stop,
        s.remote_read(id, Seq::empty(), src, now).1.tasks.len() == 0,
        s.remote_read(id, Seq::empty(), src, now).1.breaks.len() == 0,
        s.oob_read(id, Seq::empty(), now).0 == s.killed(id, now),
        s.oob_read(id, Seq::empty(), now).1.stop,
        s.script_client_read(id, Seq::empty(), now).1.stop,
        s.script_client_read(id, Seq::empty(), now).1.tasks.len() == 0,
        s.ports[id].script_ref matches Some(sr) ==> s.script_client_read(id, Seq::empty(), now).0
            == s.script_client_killed(sr, id, now),
{
}

/// What a raw script client sends goes to the remote end of its script port and then to the
/// local end, as it is, to each that takes it, while the script port is in use; else it goes
/// nowhere. A write that fails ends the port that was written to.
pub proof fn lemma_raw_script_data_goes_to_both_ends(
    s: ProxyView,
    id: PortId,
    sr: PortId,
    data: Seq<u8>,
    now: u64,
)
    requires
        s.has(id),
        s.ports[id].script_ref == Some(sr),
        id != sr,
        s.ports[id].mode & 0x10 != 0,
        data.len() > 0,
    ensures
        ({
            let round = s.script_client_read(id, data, now).1;
            let sp = s.ports[sr];
            let to_remote = match sp.rscript {
                Some(rs) => if s.has(rs) && s.ports[rs].mode & 0x2 != 0 {
                    seq![
                        TaskView::Write { to: rs, data, oob: false, on_fail: OnFail::Stop(rs) },
                    ]
                } else {
                    Seq::empty()
                },
                None => Seq::empty(),
            };
            let to_local = match sp.lscript {
                Some(ls) => if s.has(ls) && s.ports[ls].mode & 0x2 != 0 {
                    seq![
                        TaskView::Write { to: ls, data, oob: false, on_fail: OnFail::Stop(ls) },
                    ]
                } else {
                    Seq::empty()
                },
                None => Seq::empty(),
            };
            &&& round.breaks.len() == 0 && !round.stop
            &&& sp.script_in_use ==> round.tasks == to_remote + to_local
            &&& !sp.script_in_use ==> round.tasks.len() == 0
        }),
{
    let s1 = s.script_client_read(id, data, now).0;
    assert(s1.ports[sr] == s.ports[sr]);
    assert forall|x: PortId| s1.has(x) == s.has(x) && s1.ports[x].mode == s.ports[x].mode by {
        if x != id {
            assert(s1.ports[x] == s.ports[x]);
        }
    }
}

/// Data from a script client is not served exactly where it would be for an end of the script
/// port that is no port: the remote end, or the local end while the remote end takes nothing.
pub proof fn lemma_script_data_needs_an_end(
    s: ProxyView,
    id: PortId,
    sr: PortId,
    data: Seq<u8>,
)
    requires
        s.ports[id].script_ref == Some(sr),
    ensures
        ({
            let left = if s.ports[id].mode & 0x10 != 0 {
                data
            } else {
                s.iac_result(id, data).out
            };
            let sp = s.ports[sr];
            !s.script_ready(id, data) <==> left.len() > 0 && sp.script_in_use && ((sp.rscript
                is Some && !s.has(sp.rscript->0)) || (sp.lscript is Some && !s.has(sp.lscript->0)
                && (sp.rscript is None || s.ports[sp.rscript->0].mode & 0x2 == 0)))
        }),
{
}

/// Out-of-band data goes to the peer, out of band, if there is one.
pub proof fn lemma_oob_data_goes_to_the_peer(s: ProxyView, id: PortId, data: Seq<u8>, now: u64)
    requires
        s.has(id),
        data.len() > 0,
    ensures
        ({
            let (t, round) = s.oob_read(id, data, now);
            &&& round.breaks.len() == 0 && !round.stop
            &&& round.tasks == match s.ports[id].peer {
                Some(peer) => if s.has(peer) {
                    seq![
                        TaskView::Write { to: peer, data, oob: true, on_fail: OnFail::Stop(id) },
                    ]
                } else {
                    Seq::empty()
                },
                None => Seq::empty(),
            }
            &&& t == s.read_from(id, data.len() as int, None)
        }),
{
}

} // verus!
