//! Laws of setting up and of new connections: what a client is joined to, and what it is told.
use vstd::prelude::*;
use crate::accept::{Link, RemotePlan};
use crate::port::{PortClass, PortId, PortType, PortView, RawFd, SockAddr};
use crate::round::{OnFail, RoundView, TaskView};
use crate::state::{script_ref_ok, Effect, ProxyView};
use crate::telnet::BreakView;

verus! {

/// A client of the local port is connected to the address that the remote was set up with,
/// whatever that is. Datagram remotes and serial devices are shared; a remote that connects by
/// itself, or that is selected on a FIFO, cannot be joined.
pub proof fn lemma_clients_go_where_the_remote_is(
    s: ProxyView,
    local: PortId,
    host: Seq<char>,
    addr: SockAddr,
    path: Seq<char>,
    sock: RawFd,
    baud: Option<u32>,
    now: u64,
)
    requires
        s.wf(),
        s.has(local),
        s.ports[local].cls == PortClass::Local,
        s.next_id < usize::MAX,
    ensures
        ({
            let t = s.remote_added(PortType::Tcp, host, addr, None).joined(local, s.next_id);
            t.ports[local].remote == Some(s.next_id) && t.remote_plan(t.ports[local].remote)
                == RemotePlan::Connect(addr)
        }),
        ({
            let t = s.remote_added(PortType::Udp, host, addr, Some(sock)).joined(local, s.next_id);
            t.ports[local].remote == Some(s.next_id) && t.remote_plan(t.ports[local].remote)
                == RemotePlan::Attach
        }),
        ({
            let t = s.serial_added(path, sock, baud, now).joined(local, s.next_id);
            t.ports[local].remote == Some(s.next_id) && t.remote_plan(t.ports[local].remote)
                == RemotePlan::Attach
        }),
        ({
            let t = s.remote_added(PortType::Listen, host, addr, Some(sock)).joined(
                local,
                s.next_id,
            );
            t.ports[local].remote == Some(s.next_id) && t.remote_plan(t.ports[local].remote)
                == RemotePlan::Unavailable
        }),
        ({
            let t = s.fifo_added(host, path, sock).joined(local, s.next_id);
            t.ports[local].remote == Some(s.next_id) && t.remote_plan(t.ports[local].remote)
                == RemotePlan::Unavailable
        }),
{
    assert(local < s.next_id);
    assert(script_ref_ok(s.ports, s.ports[local].script_ref));
}

/// What has to be done goes by the remote alone.
pub proof fn lemma_plan_goes_by_the_remote(s: ProxyView, rid: PortId)
    ensures
        s.remote_plan(None) == RemotePlan::Unavailable,
        !s.has(rid) ==> s.remote_plan(Some(rid)) == RemotePlan::Unavailable,
        s.has(rid) && s.ports[rid].port_type == PortType::Tcp ==> s.remote_plan(Some(rid))
            == match s.ports[rid].serv_addr {
            Some(addr) => RemotePlan::Connect(addr),
            None => RemotePlan::Unavailable,
        },
        s.has(rid) && (s.ports[rid].port_type == PortType::Udp || s.ports[rid].port_type
            == PortType::Rs232) ==> s.remote_plan(Some(rid)) == RemotePlan::Attach,
        s.has(rid) && (s.ports[rid].port_type == PortType::Listen || s.ports[rid].port_type
            == PortType::FifoCon || s.ports[rid].port_type == PortType::StdinOut) ==> s.remote_plan(
            Some(rid),
        ) == RemotePlan::Unavailable,
{
}

/// A remote is what it was set up as: it has the transport, the name, the address, the port
/// number and the descriptor that were given, and is waited on if it has a descriptor. The
/// ports that were there stay as they were.
pub proof fn lemma_remote_is_as_set_up(
    s: ProxyView,
    port_type: PortType,
    host: Seq<char>,
    addr: SockAddr,
    sock: Option<RawFd>,
)
    requires
        s.wf(),
        s.next_id < usize::MAX,
    ensures
        ({
            let t = s.remote_added(port_type, host, addr, sock);
            let p = t.ports[s.next_id];
            &&& t.ports.dom() == s.ports.dom().insert(s.next_id)
            &&& t.next_id == s.next_id + 1
            &&& p.cls == PortClass::Remote && p.port_type == port_type
            &&& p.name == host && p.serv_addr == Some(addr) && p.port_num == addr.port
            &&& p.sock == match sock {
                Some(fd) => fd as int,
                None => -1,
            }
            &&& t.rds == match sock {
                Some(fd) => s.rds.insert(fd),
                None => s.rds,
            }
            &&& p.clients.len() == 0 && p.tx_buf.len() == 0 && p.rx_bytes == 0 && p.tx_bytes == 0
            &&& forall|x: PortId| s.has(x) ==> #[trigger] t.ports[x] == s.ports[x]
        }),
{
    let t = s.remote_added(port_type, host, addr, sock);
    assert(t.ports.dom() =~= s.ports.dom().insert(s.next_id));
    assert(!s.has(s.next_id));
}

/// A local port, or a script port, is what it was set up as.
pub proof fn lemma_local_is_as_set_up(
    s: ProxyView,
    port_type: PortType,
    is_script: bool,
    sock: RawFd,
)
    ensures
        ({
            let t = s.local_added(port_type, is_script, sock);
            let p = t.ports[s.next_id];
            &&& t.has(s.next_id)
            &&& p.cls == if is_script {
                PortClass::Script
            } else {
                PortClass::Local
            }
            &&& p.port_type == port_type && p.sock == sock && p.is_local
            &&& p.name == "localhost"@
            &&& p.clients.len() == 0 && p.script_ref is None && p.remote is None
            &&& !p.break_port && !p.script_in_use && p.lscript is None && p.rscript is None
            &&& t.rds == s.rds && t.wds == s.wds
        }),
{
}

/// A script port serves the local port that it was added to: the remote of that port is read
/// and written by script clients, its console is not. It is waited on, and is a debugger port
/// if it was asked to be one. A local port without connections is its local end at once.
pub proof fn lemma_script_serves_the_local_port(
    s: ProxyView,
    local: PortId,
    script: PortId,
    break_port: bool,
)
    requires
        local != script,
    ensures
        ({
            let t = s.script_added(local, script, break_port);
            let p = s.ports[local];
            let sp = t.ports[script];
            let always = p.port_type == PortType::Udp || p.port_type == PortType::StdinOut;
            &&& t.ports[local] == (PortView { script_ref: Some(script), ..p })
            &&& sp.break_port == break_port
            &&& sp.lmode == 0 && sp.rmode == 0x6
            &&& sp.lscript == if always {
                Some(local)
            } else {
                s.ports[script].lscript
            }
            &&& sp.script_in_use == (always || s.ports[script].script_in_use)
            &&& sp.clients == s.ports[script].clients && sp.sock == s.ports[script].sock
            &&& sp.port_num == s.ports[script].port_num && sp.cls == s.ports[script].cls
            &&& t.rds == s.rds.insert(s.ports[script].sock)
            &&& forall|x: PortId| x != local && x != script ==> #[trigger] t.ports[x] == s.ports[x]
        }),
{
}

/// A remote that is not connected anew for each client is the remote end of the script port
/// at once, read and written by script clients; TCP is connected for a client first.
pub proof fn lemma_script_end_of_a_lasting_remote(
    s: ProxyView,
    local: PortId,
    remote: PortId,
    sr: PortId,
)
    requires
        s.has(local),
        s.has(remote),
        s.has(sr),
        local != remote,
        local != sr,
        remote != sr,
        s.ports[local].script_ref == Some(sr),
    ensures
        ({
            let t = s.joined(local, remote);
            let lasting = s.ports[remote].port_type == PortType::Udp || s.ports[remote].port_type
                == PortType::Listen || s.ports[remote].port_type == PortType::FifoCon
                || s.ports[remote].port_type == PortType::Rs232;
            &&& t.local_port_id == local && t.remote_port_id == remote
            &&& t.ports[local] == (PortView { remote: Some(remote), ..s.ports[local] })
            &&& lasting ==> {
                &&& t.ports[sr] == (PortView {
                    rscript: Some(remote),
                    script_in_use: true,
                    ..s.ports[sr]
                })
                &&& t.ports[remote] == (PortView {
                    script_ref: Some(sr),
                    mode: 0x6,
                    ..s.ports[remote]
                })
            }
            &&& !lasting ==> t.ports[sr] == s.ports[sr] && t.ports[remote] == s.ports[remote]
        }),
{
}

/// Data of a local port that has no connections goes to its peer, whole, in one write, and
/// nowhere else, be it standard input or datagrams.
pub proof fn lemma_local_data_goes_to_the_peer(
    s: ProxyView,
    id: PortId,
    peer: PortId,
    data: Seq<u8>,
    src: Option<SockAddr>,
)
    requires
        data.len() > 0,
    ensures
        ({
            let round = s.local_read(id, Some(peer), data, src).1;
            &&& round is Some
            &&& round->0.breaks.len() == 0
            &&& round->0.tasks == seq![
                TaskView::Write { to: peer, data, oob: false, on_fail: OnFail::Ignore },
            ]
            &&& round->0.marked.len() == 0
            &&& !round->0.stop
        }),
        s.local_read(id, None, data, src).1 == Some(RoundView {
            breaks: Seq::empty(),
            tasks: Seq::empty(),
            marked: Seq::empty(),
            stop: false,
        }),
{
}

/// The proxy ends where standard input does; an empty datagram is nothing.
pub proof fn lemma_end_of_input(
    s: ProxyView,
    id: PortId,
    peer: Option<PortId>,
    src: Option<SockAddr>,
)
    ensures
        ({
            let (t, round) = s.local_read(id, peer, Seq::empty(), src);
            &&& t == s
            &&& round is None <==> peer is Some && s.ports[id].port_type == PortType::StdinOut
            &&& round is Some ==> round->0.breaks.len() == 0 && round->0.tasks.len() == 0
                && !round->0.stop
        }),
{
}

/// A client for which no connection could be made, or that cannot be joined to the remote at
/// all, is turned away: its socket is shut down and closed, in this order, no port is added,
/// nothing new is waited on, and nothing is written.
pub proof fn lemma_client_is_turned_away(
    s: ProxyView,
    id: PortId,
    rid: PortId,
    nsock: RawFd,
    link: Option<Link>,
)
    requires
        s.wf(),
        s.has(id),
        s.next_id < usize::MAX - 1,
        s.ports[id].remote is None || (s.ports[id].remote == Some(rid) && (!s.has(rid) && rid
            != s.next_id || (s.has(rid) && (s.ports[rid].port_type == PortType::Listen
            || s.ports[rid].port_type == PortType::FifoCon || s.ports[rid].port_type
            == PortType::StdinOut || (s.ports[rid].port_type == PortType::Tcp && (link is None
            || s.ports[rid].serv_addr is None)))))),
        nsock >= 0,
    ensures
        ({
            let (t, round) = s.local_accepted(id, nsock, link);
            &&& t.ports == s.ports
            &&& t.effects == s.effects.push(Effect::Shutdown(nsock)).push(Effect::Close(nsock))
            &&& t.rds == s.rds && t.wds == s.wds
            &&& t.status_dirty
            &&& round.breaks.len() == 0 && round.tasks.len() == 0 && !round.stop
        }),
{
    let t = s.local_accepted(id, nsock, link).0;
    assert(!s.has(s.next_id));
    assert(t.ports =~= s.ports);
}

/// A client of the local port gets a connection of its own to a TCP remote: both are ports
/// with the descriptors that were given and are each other's peer. The client is read at once.
/// A connection that is made is read, one that is being made is waited on until it can be
/// written. The client is told nothing.
pub proof fn lemma_client_gets_its_own_connection(
    s: ProxyView,
    id: PortId,
    rid: PortId,
    nsock: RawFd,
    link: Link,
)
    requires
        s.wf(),
        s.has(id),
        s.ports[id].cls == PortClass::Local,
        s.ports[id].remote == Some(rid),
        s.has(rid),
        s.ports[rid].cls == PortClass::Remote,
        s.ports[rid].port_type == PortType::Tcp,
        s.ports[rid].serv_addr is Some,
        s.next_id < usize::MAX - 1,
    ensures
        ({
            let (t, round) = s.local_accepted(id, nsock, Some(link));
            let client = t.ports[s.next_id];
            let far = t.ports[(s.next_id + 1) as usize];
            &&& t.has(s.next_id) && t.has((s.next_id + 1) as usize)
            &&& client.cls == PortClass::Connection && client.port_type == PortType::Tcp
            &&& client.sock == nsock && client.is_local && client.remote == Some(rid)
            &&& client.peer == Some((s.next_id + 1) as usize) && !client.connecting
            &&& far.cls == PortClass::Connection && far.port_type == PortType::Tcp
            &&& far.sock == link.sock && !far.is_local && far.peer == Some(s.next_id)
            &&& far.port_num == s.ports[rid].port_num && far.connecting == link.connecting
            &&& t.next_id == s.next_id + 2
            &&& t.rds == if link.connecting {
                s.rds.insert(nsock)
            } else {
                s.rds.insert(link.sock).insert(nsock)
            }
            &&& t.wds == if link.connecting {
                s.wds.insert(link.sock)
            } else {
                s.wds
            }
            &&& t.effects == s.effects && t.status_dirty
            &&& round.breaks.len() == 0 && round.tasks.len() == 0 && !round.stop
            &&& t.ports[rid] == s.ports[rid]
        }),
{
    assert(rid < s.next_id && id < s.next_id);
    assert(!s.has(s.next_id));
    let sref = s.ports[id].script_ref;
    assert(script_ref_ok(s.ports, sref));
    assert(sref matches Some(sr) ==> sr < s.next_id && s.ports[sr].cls == PortClass::Script);
}

/// The writes that a Telnet client is greeted with: the proxy will echo, both sides suppress
/// go-ahead, and both sides send binary.
pub open spec fn greeting(to: PortId) -> Seq<TaskView> {
    seq![
        seq![0xffu8, 0xfbu8, 0x01u8],
        seq![0xffu8, 0xfbu8, 0x03u8],
        seq![0xffu8, 0xfdu8, 0x03u8],
        seq![0xffu8, 0xfbu8, 0x00u8],
        seq![0xffu8, 0xfdu8, 0x00u8],
    ].map_values(
        |data: Seq<u8>| TaskView::Write { to, data, oob: false, on_fail: OnFail::Ignore },
    )
}

proof fn lemma_greeting(to: PortId)
    ensures
        crate::round::startup_tasks(to) == greeting(to),
{
    assert(crate::round::startup_tasks(to) =~= greeting(to));
}

/// Clients share a serial device: each new one is put behind the others, and the first is its
/// peer. A client is greeted exactly where Telnet negotiation is on. No descriptor but the
/// client's comes to be waited on.
pub proof fn lemma_client_joins_the_serial_device(
    s: ProxyView,
    id: PortId,
    rid: PortId,
    nsock: RawFd,
    link: Option<Link>,
)
    requires
        s.wf(),
        s.has(id),
        s.ports[id].cls == PortClass::Local,
        s.ports[id].remote == Some(rid),
        s.has(rid),
        s.ports[rid].cls == PortClass::Remote,
        s.ports[rid].port_type == PortType::Rs232,
        !s.ports[rid].clients.contains(s.next_id),
        s.next_id < usize::MAX - 1,
    ensures
        ({
            let (t, round) = s.local_accepted(id, nsock, link);
            let client = t.ports[s.next_id];
            let dev = t.ports[rid];
            &&& t.ports.dom() == s.ports.dom().insert(s.next_id)
            &&& client.cls == PortClass::Connection && client.port_type == PortType::Tcp
            &&& client.sock == nsock && client.is_local && client.remote == Some(rid)
            &&& client.peer == Some(rid)
            &&& dev.clients == s.ports[rid].clients.push(s.next_id)
            &&& dev.peer == match s.ports[rid].peer {
                Some(first) => Some(first),
                None => Some(s.next_id),
            }
            &&& dev.sock == s.ports[rid].sock && dev.tx_buf == s.ports[rid].tx_buf
            &&& t.rds == s.rds.insert(nsock) && t.wds == s.wds && t.effects == s.effects
            &&& round.breaks.len() == 0 && !round.stop
            &&& round.tasks == if s.settings.telnet_negotiation {
                greeting(s.next_id)
            } else {
                Seq::empty()
            }
            &&& s.ports[id].script_ref matches Some(sr) ==> {
                let sp = s.ports[sr];
                &&& client.script_ref == Some(sr) && client.mode == sp.lmode
                &&& t.ports[sr].lscript == match sp.lscript {
                    Some(first) => Some(first),
                    None => Some(s.next_id),
                }
                &&& s.ports[rid].sock >= 0 ==> {
                    &&& dev.script_ref == Some(sr) && dev.mode == sp.rmode
                    &&& t.ports[sr].rscript == Some(rid) && t.ports[sr].script_in_use
                }
                &&& s.ports[rid].sock < 0 ==> {
                    &&& dev.script_ref == s.ports[rid].script_ref && dev.mode == s.ports[rid].mode
                    &&& t.ports[sr].rscript == sp.rscript
                    &&& t.ports[sr].script_in_use == sp.script_in_use
                }
            }
        }),
{
    assert(rid < s.next_id && id < s.next_id);
    assert(!s.has(s.next_id));
    let sref = s.ports[id].script_ref;
    assert(script_ref_ok(s.ports, sref));
    assert(sref matches Some(sr) ==> sr < s.next_id && s.ports[sr].cls == PortClass::Script);
    lemma_greeting(s.next_id);
    let t = s.local_accepted(id, nsock, link).0;
    assert(t.ports.dom() =~= s.ports.dom().insert(s.next_id));
}

/// A connection takes part in scripting if it is the first: the client is the local end and
/// the connection that was made for it the remote end. While the script port is in use, later
/// clients do not take part.
pub proof fn lemma_first_client_is_scripted(
    s: ProxyView,
    sr: PortId,
    client: PortId,
    peer: PortId,
)
    requires
        s.has(sr),
        s.has(client),
        s.has(peer),
        sr != client,
        sr != peer,
        client != peer,
        s.ports[peer].port_type != PortType::Rs232,
    ensures
        s.ports[sr].script_in_use ==> s.script_joined(sr, client, peer) == s,
        !s.ports[sr].script_in_use ==> {
            let t = s.script_joined(sr, client, peer);
            let sp = s.ports[sr];
            &&& t.ports[client] == (PortView {
                script_ref: Some(sr),
                mode: sp.lmode,
                ..s.ports[client]
            })
            &&& t.ports[peer] == (PortView { script_ref: Some(sr), mode: sp.rmode, ..s.ports[peer] })
            &&& t.ports[sr] == (PortView {
                lscript: match sp.lscript {
                    Some(first) => Some(first),
                    None => Some(client),
                },
                rscript: Some(peer),
                script_in_use: true,
                ..sp
            })
        },
{
}

/// A script client joins its script port behind the others and is read. On a debugger port it
/// is a raw connection that is told nothing, and the remote is sent the configured break
/// sequence if breaks on connecting are on and there is a remote; on another one it is greeted
/// unless the port is raw, and no break is sent.
pub proof fn lemma_script_client_joins(s: ProxyView, id: PortId, nsock: RawFd)
    requires
        s.wf(),
        s.has(id),
        s.next_id < usize::MAX,
    ensures
        ({
            let (t, round) = s.script_accepted(id, nsock);
            let sp = s.ports[id];
            let client = t.ports[s.next_id];
            &&& t.ports.dom() == s.ports.dom().insert(s.next_id)
            &&& client.cls == PortClass::ScriptClient && client.port_type == PortType::Tcp
            &&& client.sock == nsock && client.script_ref == Some(id) && client.peer is None
            &&& client.mode == if sp.break_port {
                0x10int
            } else {
                0
            }
            &&& t.ports[id] == (PortView { clients: sp.clients.push(s.next_id), ..sp })
            &&& forall|x: PortId| x != id && s.has(x) ==> #[trigger] t.ports[x] == s.ports[x]
            &&& t.rds == s.rds.insert(nsock) && t.wds == s.wds && t.effects == s.effects
            &&& t.status_dirty
            &&& round.breaks == if sp.break_port && s.settings.break_on_connect {
                match sp.rscript {
                    Some(rs) => seq![BreakView { to: rs, bytes: s.settings.break_str }],
                    None => Seq::empty(),
                }
            } else {
                Seq::empty()
            }
            &&& round.tasks == if !sp.break_port && sp.mode & 0x10 == 0 {
                greeting(s.next_id)
            } else {
                Seq::empty()
            }
            &&& !round.stop
        }),
{
    let t = s.script_accepted(id, nsock).0;
    assert(t.ports.dom() =~= s.ports.dom().insert(s.next_id));
    assert(!s.has(s.next_id));
    lemma_greeting(s.next_id);
}

/// A datagram remote answers to the client that was joined to it last.
pub proof fn lemma_datagram_remote_is_joined(s: ProxyView, id: PortId, rid: PortId)
    requires
        s.has(id),
        s.ports[id].remote == Some(rid),
        s.has(rid),
        s.ports[rid].port_type == PortType::Udp,
    ensures
        s.remote_opened(id, None).1 == Some(rid),
        s.remote_opened(id, None).0.ports == s.ports.insert(
            rid,
            PortView { peer: Some(id), ..s.ports[rid] },
        ),
{
}

/// A port that was just made has a transport and a class and nothing else.
pub proof fn lemma_new_port_is_blank(s: ProxyView, port_type: PortType, cls: PortClass)
    ensures
        ({
            let t = s.allocated(port_type, cls);
            let p = t.ports[s.next_id];
            &&& t.has(s.next_id)
            &&& p.port_type == port_type && p.cls == cls && p.sock == -1 && !p.is_local
            &&& p.peer is None && p.remote is None && p.script_ref is None
            &&& p.in_iac == 0 && p.mode == 0 && p.lmode == 0 && p.rmode == 0
            &&& !p.script_in_use && p.lscript is None && p.rscript is None && !p.break_port
            &&& p.clients.len() == 0 && p.port_num == 0 && p.name.len() == 0
            &&& p.serv_addr is None && p.rx_bytes == 0 && p.tx_bytes == 0 && p.tx_buf.len() == 0
            &&& !p.connecting && p.serial_baud is None && p.serial_config_path is None
            &&& p.serial_reconnect_at is None && p.serial_check_at is None
            &&& forall|x: PortId| x != s.next_id ==> #[trigger] t.ports[x] == s.ports[x]
        }),
{
}

/// A FIFO remote has the name of the host and the descriptor that was given, is waited on, and
/// its path is kept to open it again.
pub proof fn lemma_fifo_is_as_set_up(s: ProxyView, host: Seq<char>, path: Seq<char>, sock: RawFd)
    ensures
        ({
            let t = s.fifo_added(host, path, sock);
            let p = t.ports[s.next_id];
            &&& t.has(s.next_id)
            &&& p.cls == PortClass::Remote && p.port_type == PortType::FifoCon
            &&& p.name == host && p.sock == sock
            &&& t.fifo_con_file == Some(path)
            &&& t.rds == s.rds.insert(sock)
        }),
{
}

/// A client that already shares a serial device is not put among its clients twice.
pub proof fn lemma_serial_client_joins_once(s: ProxyView, id: PortId, rid: PortId)
    requires
        s.has(id),
        s.ports[id].remote == Some(rid),
        s.has(rid),
        s.ports[rid].port_type == PortType::Rs232,
    ensures
        ({
            let (t, peer) = s.remote_opened(id, None);
            let p = s.ports[rid];
            &&& peer == Some(rid)
            &&& t.ports[rid].clients == if p.clients.contains(id) {
                p.clients
            } else {
                p.clients.push(id)
            }
            &&& t.ports[rid].peer == match p.peer {
                Some(first) => Some(first),
                None => Some(id),
            }
            &&& t.ports[rid] == (PortView {
                clients: t.ports[rid].clients,
                peer: t.ports[rid].peer,
                ..p
            })
            &&& forall|x: PortId| x != rid ==> #[trigger] t.ports[x] == s.ports[x]
            &&& t.rds == s.rds && t.wds == s.wds
        }),
{
}

/// A client of the local port is joined to a datagram remote: each is the other's peer, the
/// client is read, and is told nothing.
pub proof fn lemma_client_joins_the_datagram_remote(
    s: ProxyView,
    id: PortId,
    rid: PortId,
    nsock: RawFd,
    link: Option<Link>,
)
    requires
        s.wf(),
        s.has(id),
        s.ports[id].remote == Some(rid),
        s.has(rid),
        s.ports[rid].cls == PortClass::Remote,
        s.ports[rid].port_type == PortType::Udp,
        s.next_id < usize::MAX - 1,
    ensures
        ({
            let (t, round) = s.local_accepted(id, nsock, link);
            &&& t.has(s.next_id)
            &&& t.ports[s.next_id].peer == Some(rid) && t.ports[s.next_id].sock == nsock
            &&& t.ports[rid].peer == Some(s.next_id)
            &&& t.rds == s.rds.insert(nsock) && t.wds == s.wds && t.effects == s.effects
            &&& round.breaks.len() == 0 && round.tasks.len() == 0 && !round.stop
        }),
{
    assert(rid < s.next_id && id < s.next_id);
    assert(!s.has(s.next_id));
    let sref = s.ports[id].script_ref;
    assert(script_ref_ok(s.ports, sref));
    assert(sref matches Some(sr) ==> sr < s.next_id && s.ports[sr].cls == PortClass::Script);
}

/// A serial line is split exactly where the remote is a serial device and the local port has a
/// debugger port.
pub proof fn lemma_split_line_is_recognised(s: ProxyView)
    ensures
        s.split_script() is Some <==> s.has(s.local_port_id) && s.has(s.remote_port_id)
            && s.ports[s.local_port_id].script_ref is Some && s.has(
            s.ports[s.local_port_id].script_ref->0,
        ) && s.ports[s.ports[s.local_port_id].script_ref->0].break_port
            && s.ports[s.remote_port_id].port_type == PortType::Rs232,
        s.split_script() is Some ==> s.split_script() == s.ports[s.local_port_id].script_ref,
{
}

} // verus!
