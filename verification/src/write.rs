//! Writing to ports: what is sent at once, and what waits for the descriptor to be ready.
use nix::errno::Errno;
use vstd::prelude::*;
use crate::bytes::{append_from, subvec};
use crate::errno::{errno_is_interrupted, errno_is_would_block, is_interrupted, is_would_block};
use crate::fdset::selectable;
use crate::port::{PortId, PortType, PortView, RawFd, SockAddr, IO_BUFSIZE};
use crate::state::{saturated, ProxyState, ProxyView, MAX_PENDING_WRITE};

verus! {

/// Bytes to be handed to a descriptor once.
pub struct SendRequest {
    pub port_type: PortType,
    pub sock: RawFd,
    /// Where a datagram goes; the other transports know their peer.
    pub to: Option<SockAddr>,
    pub bytes: Vec<u8>,
    pub oob: bool,
}

/// The abstract value of a [`SendRequest`].
#[verifier::ext_equal]
pub struct SendView {
    pub port_type: PortType,
    pub sock: RawFd,
    pub to: Option<SockAddr>,
    pub bytes: Seq<u8>,
    pub oob: bool,
}

impl View for SendRequest {
    type V = SendView;

    open spec fn view(&self) -> SendView {
        SendView {
            port_type: self.port_type,
            sock: self.sock,
            to: self.to,
            bytes: self.bytes@,
            oob: self.oob,
        }
    }
}

/// What came of handing bytes to a descriptor: how many it took, or a value that is not
/// positive and the error.
#[derive(Clone, Copy)]
pub struct SendReply {
    pub got: isize,
    pub errno: Errno,
}

/// What a write to a port needs next, or its result: the number of bytes that were sent
/// or queued, or `None` where the write failed.
pub enum WriteStep {
    Send(SendRequest),
    Done(Option<usize>),
}

/// The abstract value of a [`WriteStep`].
#[verifier::ext_equal]
pub enum WriteStepView {
    Send(SendView),
    Done(Option<int>),
}

/// An optional length as an optional number.
pub open spec fn opt_int(n: Option<usize>) -> Option<int> {
    match n {
        Some(n) => Some(n as int),
        None => None,
    }
}

impl View for WriteStep {
    type V = WriteStepView;

    open spec fn view(&self) -> WriteStepView {
        match self {
            WriteStep::Send(q) => WriteStepView::Send(q@),
            WriteStep::Done(n) => WriteStepView::Done(opt_int(*n)),
        }
    }
}

/// A write to a port under way: the first `written` bytes of `data` have been sent.
pub struct WriteJob {
    pub port: PortId,
    pub data: Vec<u8>,
    pub oob: bool,
    pub written: usize,
}

/// The abstract value of a [`WriteJob`].
#[verifier::ext_equal]
pub struct JobView {
    pub port: PortId,
    pub data: Seq<u8>,
    pub oob: bool,
    pub written: int,
}

impl View for WriteJob {
    type V = JobView;

    open spec fn view(&self) -> JobView {
        JobView {
            port: self.port,
            data: self.data@,
            oob: self.oob,
            written: self.written as int,
        }
    }
}

impl JobView {
    /// The bytes that are still to be sent.
    pub open spec fn rest(self) -> Seq<u8> {
        self.data.skip(self.written)
    }
}

/// What a flush of waiting bytes needs next, or its result: `false` where writing failed.
pub enum FlushStep {
    Send(SendRequest),
    Done(bool),
}

/// The abstract value of a [`FlushStep`].
#[verifier::ext_equal]
pub enum FlushStepView {
    Send(SendView),
    Done(bool),
}

impl View for FlushStep {
    type V = FlushStepView;

    open spec fn view(&self) -> FlushStepView {
        match self {
            FlushStep::Send(q) => FlushStepView::Send(q@),
            FlushStep::Done(ok) => FlushStepView::Done(*ok),
        }
    }
}

impl ProxyView {
    /// How `bytes` are handed to the port `id`, or `None` where that cannot be tried: there
    /// is no such port, it has no descriptor, or a datagram has nowhere to go. Standard
    /// output needs no descriptor of the port.
    pub open spec fn send_request(self, id: PortId, bytes: Seq<u8>, oob: bool) -> Option<SendView> {
        let p = self.ports[id];
        if !self.has(id) || (p.sock < 0 && p.port_type != PortType::StdinOut) {
            None
        } else if p.port_type == PortType::Udp && !oob {
            match p.serv_addr {
                Some(addr) => Some(
                    SendView {
                        port_type: p.port_type,
                        sock: p.sock,
                        to: Some(addr),
                        bytes,
                        oob,
                    },
                ),
                None => None,
            }
        } else {
            Some(SendView { port_type: p.port_type, sock: p.sock, to: None, bytes, oob })
        }
    }

    /// The queue of the port `id` has room for `n` more bytes.
    pub open spec fn has_room(self, id: PortId, n: int) -> bool {
        self.has(id) ==> self.ports[id].tx_buf.len() + n <= MAX_PENDING_WRITE
    }

    /// The state with `bytes` waiting for the port `id`, where its queue has room for them.
    pub open spec fn queued(self, id: PortId, bytes: Seq<u8>) -> ProxyView {
        if self.has(id) && self.has_room(id, bytes.len() as int) {
            let p = self.ports[id];
            ProxyView {
                wds: self.wds.insert(p.sock),
                ..self.with_port(id, PortView { tx_buf: p.tx_buf + bytes, ..p })
            }
        } else {
            self
        }
    }

    /// The result of queueing the rest of a write.
    pub open spec fn queue_result(self, job: JobView) -> WriteStepView {
        if self.has_room(job.port, job.rest().len() as int) {
            WriteStepView::Done(Some(job.data.len() as int))
        } else {
            WriteStepView::Done(None)
        }
    }

    /// The next attempt to send what is left of a write.
    pub open spec fn write_attempt(self, job: JobView) -> WriteStepView {
        match self.send_request(job.port, job.rest(), job.oob) {
            Some(q) => WriteStepView::Send(q),
            None => WriteStepView::Done(None),
        }
    }

    /// Bytes for the port `id` have to wait behind others, or for its connection.
    pub open spec fn must_queue(self, id: PortId, oob: bool) -> bool {
        let p = self.ports[id];
        (p.connecting || p.tx_buf.len() > 0) && p.port_type != PortType::Udp && !oob
    }

    /// The beginning of a write: the state, and what is to be done next.
    pub open spec fn write_start(self, job: JobView) -> (ProxyView, WriteStepView) {
        if job.data.len() == 0 {
            (self, WriteStepView::Done(Some(0)))
        } else if !self.has(job.port) {
            (self, WriteStepView::Done(None))
        } else if self.must_queue(job.port, job.oob) {
            (self.queued(job.port, job.data), self.queue_result(job))
        } else {
            (self, self.write_attempt(job))
        }
    }

    /// A write that would have to wait can be queued instead.
    pub open spec fn may_queue(self, id: PortId, oob: bool) -> bool {
        let p = self.ports[id];
        p.port_type != PortType::Udp && p.port_type != PortType::StdinOut && !oob
    }

    /// The write after an attempt to send: the state, the job, and what is to be done next.
    pub open spec fn write_resume(self, job: JobView, reply: SendReply) -> (
        ProxyView,
        JobView,
        WriteStepView,
    ) {
        if reply.got > 0 {
            let s = self.sent(job.port, reply.got as int);
            let next = JobView { written: job.written + reply.got, ..job };
            if next.written >= job.data.len() {
                (s, next, WriteStepView::Done(Some(job.data.len() as int)))
            } else {
                (s, next, s.write_attempt(next))
            }
        } else if reply.got < 0 && is_interrupted(reply.errno) {
            (self, job, self.write_attempt(job))
        } else if reply.got < 0 && is_would_block(reply.errno) && self.may_queue(job.port, job.oob) {
            (self.queued(job.port, job.rest()), job, self.queue_result(job))
        } else {
            (self, job, WriteStepView::Done(None))
        }
    }

    /// The next part of the waiting bytes of the port `id` that is handed to its descriptor.
    pub open spec fn flush_part(self, id: PortId) -> Seq<u8> {
        let pending = self.ports[id].tx_buf;
        if pending.len() <= IO_BUFSIZE {
            pending
        } else {
            pending.take(IO_BUFSIZE as int)
        }
    }

    /// What a flush of the port `id` does next.
    pub open spec fn flush_start(self, id: PortId) -> (ProxyView, FlushStepView) {
        let p = self.ports[id];
        if !self.has(id) {
            (self, FlushStepView::Done(true))
        } else if p.connecting {
            (ProxyView { wds: self.wds.insert(p.sock), ..self }, FlushStepView::Done(true))
        } else if p.tx_buf.len() == 0 {
            (ProxyView { wds: self.wds.remove(p.sock), ..self }, FlushStepView::Done(true))
        } else {
            match self.send_request(id, self.flush_part(id), false) {
                Some(q) => (self, FlushStepView::Send(q)),
                None => (self, FlushStepView::Done(false)),
            }
        }
    }

    /// The flush of the port `id` after an attempt to send.
    pub open spec fn flush_resume(
        self,
        id: PortId,
        reply: SendReply,
    ) -> (ProxyView, FlushStepView) {
        let p = self.ports[id];
        if reply.got > 0 {
            let s = self.sent(id, reply.got as int);
            s.with_port(
                id,
                PortView { tx_buf: p.tx_buf.skip(reply.got as int), ..s.ports[id] },
            ).flush_start(id)
        } else if is_interrupted(reply.errno) {
            self.flush_start(id)
        } else if is_would_block(reply.errno) {
            (ProxyView { wds: self.wds.insert(p.sock), ..self }, FlushStepView::Done(true))
        } else {
            (self, FlushStepView::Done(false))
        }
    }
}

impl ProxyState {
    /// How `bytes` are handed to the port `id`, or `None` where that cannot be tried.
    pub fn port_write_once(&self, id: PortId, bytes: Vec<u8>, oob: bool) -> (r: Option<SendRequest>)
        ensures
            match r {
                Some(q) => self@.send_request(id, bytes@, oob) == Some(q@),
                None => self@.send_request(id, bytes@, oob) is None,
            },
    {
        match self.ports.get(id) {
            Some(p) => {
                if p.sock < 0 && p.port_type != PortType::StdinOut {
                    None
                } else if p.port_type == PortType::Udp && !oob {
                    match p.serv_addr {
                        Some(addr) => Some(
                            SendRequest {
                                port_type: p.port_type,
                                sock: p.sock,
                                to: Some(addr),
                                bytes,
                                oob,
                            },
                        ),
                        None => None,
                    }
                } else {
                    Some(SendRequest { port_type: p.port_type, sock: p.sock, to: None, bytes, oob })
                }
            },
            None => None,
        }
    }

    /// Lets the bytes of `data` from `from` on wait for the port `id`. The result says
    /// whether its queue had room for them.
    pub fn queue_pending_write(&mut self, id: PortId, data: &Vec<u8>, from: usize) -> (r: bool)
        requires
            old(self).wf(),
            from <= data@.len(),
            old(self)@.has(id) ==> selectable(old(self)@.ports[id].sock),
        ensures
            final(self).wf(),
            r == old(self)@.has_room(id, data@.len() - from),
            final(self)@ == old(self)@.queued(id, data@.skip(from as int)),
    {
        if let Some(port) = self.ports.get_mut(id) {
            let pending = port.tx_buf.len();
            if pending.saturating_add(data.len() - from) > MAX_PENDING_WRITE {
                assert(self@.ports =~= old(self)@.ports);
                return false;
            }
            append_from(&mut port.tx_buf, data, from);
            let sock = port.sock;
            self.master_wds.insert(sock);
        }
        true
    }

    fn write_attempt(&self, job: &WriteJob) -> (r: WriteStep)
        requires
            job.written <= job.data@.len(),
        ensures
            r@ == self@.write_attempt(job@),
    {
        let rest = subvec(&job.data, job.written, job.data.len());
        assert(rest@ =~= job@.rest());
        match self.port_write_once(job.port, rest, job.oob) {
            Some(q) => WriteStep::Send(q),
            None => WriteStep::Done(None),
        }
    }

    fn queue_rest(&mut self, job: &WriteJob) -> (r: WriteStep)
        requires
            old(self).wf(),
            job.written <= job.data@.len(),
            old(self)@.has(job.port) ==> selectable(old(self)@.ports[job.port].sock),
        ensures
            final(self).wf(),
            final(self)@ == old(self)@.queued(job.port, job@.rest()),
            r@ == old(self)@.queue_result(job@),
    {
        if self.queue_pending_write(job.port, &job.data, job.written) {
            WriteStep::Done(Some(job.data.len()))
        } else {
            WriteStep::Done(None)
        }
    }

    /// Begins a write to a port. Bytes are queued behind others that wait, or while the
    /// port connects; else they are to be sent.
    pub fn tracked_port_write(&mut self, job: &WriteJob) -> (r: WriteStep)
        requires
            old(self).wf(),
            job.written == 0,
        ensures
            final(self).wf(),
            (final(self)@, r@) == old(self)@.write_start(job@),
    {
        assert(job@.rest() =~= job@.data);
        if job.data.len() == 0 {
            return WriteStep::Done(Some(0));
        }
        let queue = match self.ports.get(job.port) {
            Some(p) => (p.connecting || p.tx_buf.len() > 0) && p.port_type != PortType::Udp
                && !job.oob,
            None => {
                return WriteStep::Done(None);
            },
        };
        if queue {
            self.queue_rest(job)
        } else {
            self.write_attempt(job)
        }
    }

    /// Goes on with a write after an attempt to send: what was taken is counted, what is
    /// left is tried again, queued where the descriptor is not ready, or given up.
    pub fn write_reply(&mut self, job: &mut WriteJob, reply: SendReply) -> (r: WriteStep)
        requires
            old(self).wf(),
            old(job).written < old(job).data@.len(),
            reply.got <= old(job).data@.len() - old(job).written,
            old(self)@.send_request(old(job).port, old(job)@.rest(), old(job).oob) is Some,
        ensures
            final(self).wf(),
            (final(self)@, final(job)@, r@) == old(self)@.write_resume(old(job)@, reply),
            r is Send ==> final(job).written < final(job).data@.len(),
    {
        let len = job.data.len();
        if reply.got > 0 {
            self.record_tx(job.port, reply.got as usize);
            job.written = job.written + reply.got as usize;
            if job.written >= len {
                return WriteStep::Done(Some(len));
            }
            return self.write_attempt(job);
        }
        if reply.got < 0 && errno_is_interrupted(reply.errno) {
            return self.write_attempt(job);
        }
        let may_queue = match self.ports.get(job.port) {
            Some(p) => p.port_type != PortType::Udp && p.port_type != PortType::StdinOut && !job.oob,
            None => false,
        };
        if reply.got < 0 && errno_is_would_block(reply.errno) && may_queue {
            return self.queue_rest(job);
        }
        WriteStep::Done(None)
    }

    /// Begins to write what waits for the port `id`.
    pub fn flush_pending_write(&mut self, id: PortId) -> (r: FlushStep)
        requires
            old(self).wf(),
        ensures
            final(self).wf(),
            (final(self)@, r@) == old(self)@.flush_start(id),
            r is Send ==> final(self)@.has(id) && final(self)@.ports[id].tx_buf.len() > 0,
    {
        let (sock, connecting, pending) = match self.ports.get(id) {
            Some(p) => {
                let n = if p.tx_buf.len() <= IO_BUFSIZE {
                    p.tx_buf.len()
                } else {
                    IO_BUFSIZE
                };
                (p.sock, p.connecting, subvec(&p.tx_buf, 0, n))
            },
            None => {
                return FlushStep::Done(true);
            },
        };
        if connecting {
            self.master_wds.insert(sock);
            return FlushStep::Done(true);
        }
        if pending.len() == 0 {
            self.master_wds.remove(sock);
            return FlushStep::Done(true);
        }
        assert(pending@ =~= self@.flush_part(id));
        match self.port_write_once(id, pending, false) {
            Some(q) => FlushStep::Send(q),
            None => FlushStep::Done(false),
        }
    }

    /// Goes on with a flush after an attempt to send.
    pub fn flush_reply(&mut self, id: PortId, reply: SendReply) -> (r: FlushStep)
        requires
            old(self).wf(),
            old(self)@.has(id),
            old(self)@.ports[id].tx_buf.len() > 0,
            reply.got <= old(self)@.flush_part(id).len(),
        ensures
            final(self).wf(),
            (final(self)@, r@) == old(self)@.flush_resume(id, reply),
            r is Send ==> final(self)@.has(id) && final(self)@.ports[id].tx_buf.len() > 0,
    {
        if reply.got > 0 {
            let got = reply.got as usize;
            self.record_tx(id, got);
            if let Some(port) = self.ports.get_mut(id) {
                let rest = subvec(&port.tx_buf, got, port.tx_buf.len());
                assert(rest@ =~= port.tx_buf@.skip(got as int));
                port.tx_buf = rest;
            }
            return self.flush_pending_write(id);
        }
        if errno_is_interrupted(reply.errno) {
            return self.flush_pending_write(id);
        }
        if errno_is_would_block(reply.errno) {
            if let Some(p) = self.ports.get(id) {
                let sock = p.sock;
                self.master_wds.insert(sock);
            }
            return FlushStep::Done(true);
        }
        FlushStep::Done(false)
    }
}

/// A write carried to its end, or to the end of `replies`, by answering each attempt to
/// send with the next of them: the state, the job, and what is to be done next.
pub open spec fn write_run(
    s: ProxyView,
    job: JobView,
    step: WriteStepView,
    replies: Seq<SendReply>,
) -> (ProxyView, JobView, WriteStepView)
    decreases replies.len(),
{
    if step is Done || replies.len() == 0 {
        (s, job, step)
    } else {
        let (s1, job1, step1) = s.write_resume(job, replies[0]);
        write_run(s1, job1, step1, replies.skip(1))
    }
}

/// No reply of a run claims more bytes than the attempt that it answers handed over.
pub open spec fn replies_fit(
    s: ProxyView,
    job: JobView,
    step: WriteStepView,
    replies: Seq<SendReply>,
) -> bool
    decreases replies.len(),
{
    if step is Done || replies.len() == 0 {
        true
    } else {
        let (s1, job1, step1) = s.write_resume(job, replies[0]);
        replies[0].got <= job.rest().len() && replies_fit(s1, job1, step1, replies.skip(1))
    }
}

proof fn lemma_write_run(
    s: ProxyView,
    job: JobView,
    step: WriteStepView,
    replies: Seq<SendReply>,
)
    requires
        s.has(job.port),
        0 <= job.written < job.data.len(),
        step == s.write_attempt(job),
        replies_fit(s, job, step, replies),
    ensures
        ({
            let (s1, job1, step1) = write_run(s, job, step, replies);
            let before = s.ports[job.port].tx_buf;
            let after = s1.ports[job.port].tx_buf;
            &&& job.written <= job1.written <= job.data.len()
            &&& job1 == (JobView { written: job1.written, ..job })
            &&& s1.ports.dom() == s.ports.dom()
            &&& forall|id: PortId|
                id != job.port && s.has(id) ==> #[trigger] s1.ports[id] == s.ports[id]
            &&& s1.rds == s.rds
            &&& s1.ports[job.port].tx_bytes == saturated(
                s.ports[job.port].tx_bytes,
                job1.written - job.written,
            )
            &&& step1 matches WriteStepView::Done(Some(n)) ==> n == job.data.len() && after
                == before + job1.rest()
            &&& step1 == WriteStepView::Done(None) ==> after == before
            &&& step1 matches WriteStepView::Send(q) ==> q.bytes == job1.rest() && after == before
        }),
    decreases replies.len(),
{
    if step is Done || replies.len() == 0 {
    } else {
        let reply = replies[0];
        let (s1, job1, step1) = s.write_resume(job, reply);
        if step1 is Done {
            assert(write_run(s1, job1, step1, replies.skip(1)) == (s1, job1, step1));
            if reply.got > 0 {
                assert(job1.rest() =~= Seq::<u8>::empty());
                assert(s.ports[job.port].tx_buf + job1.rest() =~= s.ports[job.port].tx_buf);
            }
            assert(s1.ports.dom() =~= s.ports.dom());
        } else {
            assert(s1.ports.dom() =~= s.ports.dom());
            lemma_write_run(s1, job1, step1, replies.skip(1));
        }
    }
}

/// A write neither loses, repeats nor reorders bytes, whatever the descriptor answers: the
/// bytes that it took are the first ones of `data`, and a write that succeeds leaves the
/// others, in their order, behind what already waited. A write that fails leaves the
/// waiting bytes as they were. The bytes that the descriptor took, and no others, are counted
/// as sent. Other ports and the descriptors to read do not change.
pub proof fn lemma_write_keeps_every_byte(
    s: ProxyView,
    port: PortId,
    data: Seq<u8>,
    oob: bool,
    replies: Seq<SendReply>,
)
    requires
        s.has(port),
        ({
            let job = JobView { port, data, oob, written: 0 };
            let (s0, step0) = s.write_start(job);
            replies_fit(s0, job, step0, replies)
        }),
    ensures
        ({
            let job = JobView { port, data, oob, written: 0 };
            let (s0, step0) = s.write_start(job);
            let (s1, job1, step1) = write_run(s0, job, step0, replies);
            let before = s.ports[port].tx_buf;
            let after = s1.ports[port].tx_buf;
            &&& 0 <= job1.written <= data.len()
            &&& s1.ports.dom() == s.ports.dom()
            &&& forall|id: PortId| id != port && s.has(id) ==> #[trigger] s1.ports[id] == s.ports[id]
            &&& s1.rds == s.rds
            &&& s1.ports[port].tx_bytes == saturated(s.ports[port].tx_bytes, job1.written)
            &&& step1 matches WriteStepView::Done(Some(n)) ==> n == data.len() && after == before
                + data.skip(job1.written)
            &&& step1 == WriteStepView::Done(None) ==> after == before
            &&& step1 matches WriteStepView::Send(q) ==> q.bytes == data.skip(job1.written)
        }),
{
    let job = JobView { port, data, oob, written: 0 };
    let (s0, step0) = s.write_start(job);
    assert(job.rest() =~= data);
    assert(s0.ports.dom() =~= s.ports.dom());
    if step0 is Done {
        if data.len() == 0 {
            assert(s.ports[port].tx_buf + data.skip(0) =~= s.ports[port].tx_buf);
        }
        if !s.must_queue(port, oob) && data.len() > 0 {
            assert(step0 == WriteStepView::Done(None));
        }
    } else {
        lemma_write_run(s0, job, step0, replies);
    }
}

/// Bytes that wait are written in the order in which they came: what a flush hands over is
/// the beginning of what waits, and what the descriptor took is exactly what leaves it.
pub proof fn lemma_flush_keeps_order(s: ProxyView, id: PortId, reply: SendReply)
    requires
        s.has(id),
        s.flush_start(id).1 is Send,
        reply.got <= s.flush_part(id).len(),
    ensures
        ({
            let part = s.flush_start(id).1->Send_0.bytes;
            let waiting = s.ports[id].tx_buf;
            let s1 = s.flush_resume(id, reply).0;
            let taken = if reply.got > 0 {
                part.take(reply.got as int)
            } else {
                Seq::empty()
            };
            waiting == taken + s1.ports[id].tx_buf
        }),
{
    let waiting = s.ports[id].tx_buf;
    let s1 = s.flush_resume(id, reply).0;
    if reply.got > 0 {
        assert(s.flush_part(id).take(reply.got as int) =~= waiting.take(reply.got as int));
        assert(waiting =~= waiting.take(reply.got as int) + waiting.skip(reply.got as int));
    } else {
        assert(waiting =~= Seq::<u8>::empty() + waiting);
    }
}

/// A flush carried to its end, or to the end of `replies`, by answering each attempt to send
/// with the next of them: the state, what is to be done next, and the bytes that were taken.
pub open spec fn flush_run(
    s: ProxyView,
    id: PortId,
    step: FlushStepView,
    replies: Seq<SendReply>,
) -> (ProxyView, FlushStepView, Seq<u8>)
    decreases replies.len(),
{
    if replies.len() == 0 {
        (s, step, Seq::empty())
    } else {
        match step {
            FlushStepView::Done(_) => (s, step, Seq::empty()),
            FlushStepView::Send(q) => {
                let (s1, step1) = s.flush_resume(id, replies[0]);
                let (s2, step2, taken) = flush_run(s1, id, step1, replies.skip(1));
                let first = if replies[0].got > 0 {
                    q.bytes.take(replies[0].got as int)
                } else {
                    Seq::empty()
                };
                (s2, step2, first + taken)
            },
        }
    }
}

/// No reply of a flush claims more bytes than the attempt that it answers handed over.
pub open spec fn flush_replies_fit(
    s: ProxyView,
    id: PortId,
    step: FlushStepView,
    replies: Seq<SendReply>,
) -> bool
    decreases replies.len(),
{
    if replies.len() == 0 {
        true
    } else {
        match step {
            FlushStepView::Done(_) => true,
            FlushStepView::Send(q) => {
                let (s1, step1) = s.flush_resume(id, replies[0]);
                replies[0].got <= q.bytes.len() && flush_replies_fit(
                    s1,
                    id,
                    step1,
                    replies.skip(1),
                )
            },
        }
    }
}

/// A flush neither loses, repeats nor reorders bytes, whatever the descriptor answers: what
/// waited is what the descriptor took, in its order, followed by what still waits. The bytes
/// that it took, and no others, are counted as sent.
pub proof fn lemma_flush_keeps_every_byte(s: ProxyView, id: PortId, replies: Seq<SendReply>)
    requires
        s.has(id),
        ({
            let (s0, step0) = s.flush_start(id);
            flush_replies_fit(s0, id, step0, replies)
        }),
    ensures
        ({
            let (s0, step0) = s.flush_start(id);
            let (s1, step1, taken) = flush_run(s0, id, step0, replies);
            &&& s1.has(id)
            &&& s.ports[id].tx_buf == taken + s1.ports[id].tx_buf
            &&& s1.ports[id].tx_bytes == saturated(s.ports[id].tx_bytes, taken.len() as int)
        }),
    decreases replies.len(),
{
    let (s0, step0) = s.flush_start(id);
    let waiting = s.ports[id].tx_buf;
    assert(s0.ports[id] == s.ports[id]);
    assert(waiting =~= Seq::<u8>::empty() + waiting);
    if replies.len() > 0 && step0 is Send {
        let reply = replies[0];
        let (s1, step1) = s0.flush_resume(id, reply);
        let (s2, step2, taken) = flush_run(s1, id, step1, replies.skip(1));
        let bytes = step0->Send_0.bytes;
        assert(s0 == s);
        assert(bytes == s.flush_part(id));
        if reply.got > 0 {
            let n = reply.got as int;
            let sent = s.sent(id, n);
            let next = sent.with_port(
                id,
                PortView { tx_buf: waiting.skip(n), ..sent.ports[id] },
            );
            assert(next.flush_start(id) == (s1, step1));
            lemma_flush_keeps_every_byte(next, id, replies.skip(1));
            assert(bytes.take(n) =~= waiting.take(n));
            assert(waiting =~= waiting.take(n) + waiting.skip(n));
            assert(waiting =~= (bytes.take(n) + taken) + s2.ports[id].tx_buf);
        } else if is_interrupted(reply.errno) {
            lemma_flush_keeps_every_byte(s, id, replies.skip(1));
            assert(Seq::<u8>::empty() + taken =~= taken);
        } else {
            assert(flush_run(s1, id, step1, replies.skip(1)) == (s1, step1, Seq::<u8>::empty()));
            assert(Seq::<u8>::empty() + taken =~= taken);
        }
    }
}

} // verus!
