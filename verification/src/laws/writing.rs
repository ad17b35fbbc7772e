//! Laws of writing: what is handed to a descriptor, what waits, and what is given up.
use nix::errno::Errno;
use vstd::prelude::*;
use crate::errno::{
    is_connect_pending, is_interrupted, is_permission_denied, is_would_block,
};
use crate::port::{PortId, PortType, PortView};
use crate::ready::ReadyStepView;
use crate::remote::{connect_state, errno_from_raw, ConnectState};
use crate::state::ProxyView;
use crate::write::{FlushStepView, JobView, SendReply, SendView, WriteStepView};

verus! {

/// Bytes are handed to the port's own descriptor, all of them; a datagram goes to the address
/// that the port answers to. It cannot be tried where there is no port, where the port has no
/// descriptor, other than for standard output, and where a datagram has nowhere to go.
pub proof fn lemma_bytes_are_handed_to_the_port(
    s: ProxyView,
    id: PortId,
    bytes: Seq<u8>,
    oob: bool,
)
    ensures
        ({
            let p = s.ports[id];
            let r = s.send_request(id, bytes, oob);
            &&& r is None <==> !s.has(id) || (p.sock < 0 && p.port_type != PortType::StdinOut) || (
            p.port_type == PortType::Udp && !oob && p.serv_addr is None)
            &&& r matches Some(q) ==> {
                &&& q.port_type == p.port_type && q.sock == p.sock
                &&& q.bytes == bytes && q.oob == oob
                &&& q.to == if p.port_type == PortType::Udp && !oob {
                    p.serv_addr
                } else {
                    None
                }
            }
        }),
{
}

/// A write to a port that nothing waits for asks for all of its bytes at once, and changes
/// nothing before it is answered.
pub proof fn lemma_write_begins_with_everything(
    s: ProxyView,
    port: PortId,
    data: Seq<u8>,
    oob: bool,
)
    requires
        s.has(port),
        data.len() > 0,
        oob || s.ports[port].port_type == PortType::Udp || (!s.ports[port].connecting
            && s.ports[port].tx_buf.len() == 0),
    ensures
        ({
            let (t, step) = s.write_start(JobView { port, data, oob, written: 0 });
            &&& t == s
            &&& step == match s.send_request(port, data, oob) {
                Some(q) => WriteStepView::Send(q),
                None => WriteStepView::Done(None),
            }
        }),
{
    assert(data.skip(0) =~= data);
}

/// A write to a port that connects, or that bytes wait for, waits behind them, if no more than
/// a mebibyte then waits, and the port is watched for room; it then counts as done. Else it
/// fails and nothing changes.
pub proof fn lemma_write_waits_behind_others(
    s: ProxyView,
    port: PortId,
    data: Seq<u8>,
)
    requires
        s.has(port),
        data.len() > 0,
        s.ports[port].port_type != PortType::Udp,
        s.ports[port].connecting || s.ports[port].tx_buf.len() > 0,
    ensures
        ({
            let (t, step) = s.write_start(JobView { port, data, oob: false, written: 0 });
            let p = s.ports[port];
            &&& p.tx_buf.len() + data.len() <= 1048576 ==> {
                &&& t.ports == s.ports.insert(
                    port,
                    PortView { tx_buf: p.tx_buf + data, ..p },
                )
                &&& t.wds == s.wds.insert(p.sock) && t.rds == s.rds
                &&& step == WriteStepView::Done(Some(data.len() as int))
            }
            &&& p.tx_buf.len() + data.len() > 1048576 ==> t == s && step == WriteStepView::Done(None)
        }),
{
    assert(data.skip(0) =~= data);
}

/// Nothing to write is done at once, and nothing can be written to what is no port.
pub proof fn lemma_empty_and_missing_writes(s: ProxyView, port: PortId, data: Seq<u8>, oob: bool)
    ensures
        s.write_start(JobView { port, data: Seq::empty(), oob, written: 0 }) == (
            s,
            WriteStepView::Done(Some(0)),
        ),
        !s.has(port) && data.len() > 0 ==> s.write_start(JobView { port, data, oob, written: 0 })
            == (s, WriteStepView::Done(None)),
{
}

/// What an answer means for a write that is not over. Bytes that were taken are counted, and
/// the rest is handed over next, or the write is done with all of its bytes. An interrupted
/// attempt is repeated as it was. Where the descriptor is not ready the rest waits, if it may
/// and there is room, and the write counts as done; datagrams, standard output and out-of-band
/// data do not wait. Anything else fails.
pub proof fn lemma_answers_to_a_write(s: ProxyView, job: JobView, reply: SendReply)
    requires
        s.has(job.port),
        0 <= job.written < job.data.len(),
        reply.got <= job.data.len() - job.written,
        s.send_request(job.port, job.data.skip(job.written), job.oob) is Some,
    ensures
        ({
            let (t, next, step) = s.write_resume(job, reply);
            let p = s.ports[job.port];
            let rest = job.data.skip(job.written);
            let waits = p.port_type != PortType::Udp && p.port_type != PortType::StdinOut
                && !job.oob;
            &&& next.port == job.port && next.data == job.data && next.oob == job.oob
            &&& reply.got > 0 ==> {
                &&& next.written == job.written + reply.got
                &&& t == s.sent(job.port, reply.got as int)
                &&& reply.got == rest.len() ==> step == WriteStepView::Done(
                    Some(job.data.len() as int),
                )
                &&& reply.got < rest.len() ==> step == WriteStepView::Send(
                    SendView {
                        bytes: job.data.skip(job.written + reply.got),
                        ..s.send_request(job.port, rest, job.oob)->0
                    },
                )
            }
            &&& reply.got <= 0 ==> next == job
            &&& reply.got < 0 && reply.errno == Errno::EINTR ==> t == s && step
                == WriteStepView::Send(s.send_request(job.port, rest, job.oob)->0)
            &&& reply.got < 0 && reply.errno == Errno::EAGAIN && waits && p.tx_buf.len()
                + rest.len() <= 1048576 ==> {
                &&& t.ports == s.ports.insert(
                    job.port,
                    PortView { tx_buf: p.tx_buf + rest, ..p },
                )
                &&& t.wds == s.wds.insert(p.sock)
                &&& step == WriteStepView::Done(Some(job.data.len() as int))
            }
            &&& reply.got < 0 && reply.errno == Errno::EAGAIN && (!waits || p.tx_buf.len()
                + rest.len() > 1048576) ==> t == s && step == WriteStepView::Done(None)
            &&& reply.got == 0 || (reply.got < 0 && reply.errno != Errno::EINTR && reply.errno
                != Errno::EAGAIN) ==> t == s && step == WriteStepView::Done(None)
        }),
{
}

/// A flush hands over the first bytes that wait, at most a buffer of them. A port that still
/// connects stays watched; one that nothing waits for is not watched any more.
pub proof fn lemma_flush_begins_in_front(s: ProxyView, id: PortId)
    ensures
        ({
            let (t, step) = s.flush_start(id);
            let p = s.ports[id];
            let n = if p.tx_buf.len() <= 8192 {
                p.tx_buf.len() as int
            } else {
                8192
            };
            &&& !s.has(id) ==> t == s && step == FlushStepView::Done(true)
            &&& s.has(id) && p.connecting ==> step == FlushStepView::Done(true) && t == (
            ProxyView { wds: s.wds.insert(p.sock), ..s })
            &&& s.has(id) && !p.connecting && p.tx_buf.len() == 0 ==> step == FlushStepView::Done(
                true,
            ) && t == (ProxyView { wds: s.wds.remove(p.sock), ..s })
            &&& s.has(id) && !p.connecting && p.tx_buf.len() > 0 ==> t == s && step == match s.send_request(
                id,
                p.tx_buf.take(n),
                false,
            ) {
                Some(q) => FlushStepView::Send(q),
                None => FlushStepView::Done(false),
            }
        }),
{
    let p = s.ports[id];
    if p.tx_buf.len() <= 8192 {
        assert(p.tx_buf.take(p.tx_buf.len() as int) =~= p.tx_buf);
    }
}

/// What an answer means for a flush: bytes that were taken are counted and leave, and the flush
/// goes on with the others; an interrupted attempt is repeated; where the descriptor is not
/// ready it stays watched; anything else fails.
pub proof fn lemma_answers_to_a_flush(s: ProxyView, id: PortId, reply: SendReply)
    requires
        s.has(id),
        reply.got <= s.ports[id].tx_buf.len(),
    ensures
        ({
            let (t, step) = s.flush_resume(id, reply);
            let p = s.ports[id];
            let u = s.sent(id, reply.got as int);
            let left = ProxyView {
                ports: u.ports.insert(
                    id,
                    PortView { tx_buf: p.tx_buf.skip(reply.got as int), ..u.ports[id] },
                ),
                ..u
            };
            &&& reply.got > 0 ==> (t, step) == left.flush_start(id)
            &&& reply.got <= 0 && reply.errno == Errno::EINTR ==> (t, step) == s.flush_start(id)
            &&& reply.got <= 0 && reply.errno == Errno::EAGAIN ==> step == FlushStepView::Done(true)
                && t == (ProxyView { wds: s.wds.insert(p.sock), ..s })
            &&& reply.got <= 0 && reply.errno != Errno::EINTR && reply.errno != Errno::EAGAIN
                ==> step == FlushStepView::Done(false) && t == s
        }),
{
}

/// How far a connection has come goes by what its socket reports: no error means that it is
/// there, an operation under way that it is not yet, and anything else that it failed.
pub proof fn lemma_connection_goes_by_its_error(err: i32, e: Errno)
    ensures
        connect_state(Ok(0)) == ConnectState::Established,
        err != 0 ==> connect_state(Ok(err)) == if errno_from_raw(err) == Errno::EINPROGRESS
            || errno_from_raw(err) == Errno::EALREADY {
            ConnectState::Pending
        } else {
            ConnectState::Failed
        },
        connect_state(Err(e)) == ConnectState::Failed,
{
}

/// A connection that is there is read, and watched for room exactly if bytes wait for it; one
/// that is not yet stays watched; one that failed is reported. A port that does not connect is
/// left alone.
pub proof fn lemma_connection_is_finished(s: ProxyView, id: PortId, c: ConnectState)
    ensures
        ({
            let (t, ok) = s.connect_finished(id, c);
            let p = s.ports[id];
            &&& !s.has(id) || !p.connecting ==> t == s && ok
            &&& s.has(id) && p.connecting ==> {
                &&& ok == (c != ConnectState::Failed)
                &&& c == ConnectState::Failed ==> t == s
                &&& c == ConnectState::Pending ==> t == (ProxyView {
                    wds: s.wds.insert(p.sock),
                    ..s
                })
                &&& c == ConnectState::Established ==> {
                    &&& t.ports == s.ports.insert(id, PortView { connecting: false, ..p })
                    &&& t.rds == s.rds.insert(p.sock)
                    &&& t.wds == if p.tx_buf.len() > 0 {
                        s.wds.insert(p.sock)
                    } else {
                        s.wds.remove(p.sock)
                    }
                    &&& t.status_dirty
                }
            }
        }),
{
}

/// A port that is ready to be written is asked how its connection went if it still connects;
/// else what waits for it is handed over, and with nothing waiting there is nothing to do. A
/// flush or a connection that failed ends the port.
pub proof fn lemma_writable_port_is_served(s: ProxyView, id: PortId, now: u64)
    ensures
        ({
            let (t, step) = s.ready_start(id, now);
            let p = s.ports[id];
            &&& !s.has(id) ==> t == s && step == ReadyStepView::Done(false)
            &&& s.has(id) && p.connecting ==> t == s && step == ReadyStepView::AskError(p.sock)
            &&& s.has(id) && !p.connecting && p.tx_buf.len() == 0 ==> t == s && step
                == ReadyStepView::Done(false)
            &&& s.has(id) && !p.connecting && p.tx_buf.len() > 0 ==> match s.flush_start(id).1 {
                FlushStepView::Send(q) => t == s && step == ReadyStepView::Send(q),
                FlushStepView::Done(_) => t == s.killed(id, now) && step == ReadyStepView::Done(
                    true,
                ),
            }
        }),
        s.has(id) && s.ports[id].connecting ==> {
            let failed = s.ready_connected(id, Err(Errno::EINVAL), now);
            failed.0 == s.killed(id, now) && failed.1 == ReadyStepView::Done(true)
        },
{
}

/// An attempt to send on a port that is ready either goes on, or ends the port if it failed.
pub proof fn lemma_writable_port_goes_on(s: ProxyView, id: PortId, reply: SendReply, now: u64)
    ensures
        ({
            let (t, step) = s.ready_sent(id, reply, now);
            let (u, flush) = s.flush_resume(id, reply);
            match flush {
                FlushStepView::Send(q) => t == u && step == ReadyStepView::Send(q),
                FlushStepView::Done(ok) => step == ReadyStepView::Done(!ok) && t == if ok {
                    u
                } else {
                    u.killed(id, now)
                },
            }
        }),
{
}

/// A connection that turns out to be there goes on like any port that is ready: what waited
/// for it is handed over. One that is still being made is left to the next turn.
pub proof fn lemma_connection_goes_on(s: ProxyView, id: PortId, now: u64)
    requires
        s.has(id),
        s.ports[id].connecting,
    ensures
        s.ready_connected(id, Ok(0), now) == s.connect_finished(
            id,
            ConnectState::Established,
        ).0.ready_start(id, now),
        s.connect_finished(id, ConnectState::Established).0.ports[id].tx_buf == s.ports[id].tx_buf,
{
}

/// What the errors of the operating system mean: an interrupted call is repeated, one that
/// would have had to wait is not ready, a connection under way is pending, and opening was
/// denied for want of permission.
pub proof fn lemma_what_errors_mean(e: Errno)
    ensures
        is_interrupted(e) <==> e == Errno::EINTR,
        is_would_block(e) <==> e == Errno::EAGAIN,
        is_connect_pending(e) <==> e == Errno::EINPROGRESS || e == Errno::EALREADY,
        is_permission_denied(e) <==> e == Errno::EACCES || e == Errno::EPERM,
{
}

} // verus!
