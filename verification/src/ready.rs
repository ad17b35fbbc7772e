//! Ports that are ready to be written: connections that are being made, and bytes that wait.
use nix::errno::Errno;
use vstd::prelude::*;
use crate::kill::lemma_joined_connections_end_together;
use crate::port::{PortClass, PortId, RawFd};
use crate::remote::{connect_state, ConnectState};
use crate::state::{ProxyState, ProxyView, SERIAL_RECONNECT_INTERVAL};
use crate::write::{FlushStep, FlushStepView, SendReply, SendRequest, SendView};

verus! {

/// What a port that is ready to be written needs next.
pub enum ReadyStep {
    /// Ask the socket how its connection went.
    AskError(RawFd),
    /// Hand the bytes to the descriptor.
    Send(SendRequest),
    /// Nothing. The value says that the port was ended, and the turn with it.
    Done(bool),
}

/// The abstract value of a [`ReadyStep`].
#[verifier::ext_equal]
pub enum ReadyStepView {
    AskError(RawFd),
    Send(SendView),
    Done(bool),
}

impl View for ReadyStep {
    type V = ReadyStepView;

    open spec fn view(&self) -> ReadyStepView {
        match self {
            ReadyStep::AskError(fd) => ReadyStepView::AskError(*fd),
            ReadyStep::Send(q) => ReadyStepView::Send(q@),
            ReadyStep::Done(ended) => ReadyStepView::Done(*ended),
        }
    }
}

impl ProxyView {
    /// What follows from a step of flushing the port `id`: where it failed, the port ends.
    pub open spec fn flush_outcome(self, id: PortId, step: FlushStepView, now: u64) -> (
        ProxyView,
        ReadyStepView,
    ) {
        match step {
            FlushStepView::Send(q) => (self, ReadyStepView::Send(q)),
            FlushStepView::Done(ok) => if ok {
                (self, ReadyStepView::Done(false))
            } else {
                (self.killed(id, now), ReadyStepView::Done(true))
            },
        }
    }

    /// What is done for the bytes that wait for the port `id`, if there are any.
    pub open spec fn drained(self, id: PortId, now: u64) -> (ProxyView, ReadyStepView) {
        if self.has(id) && self.ports[id].tx_buf.len() > 0 {
            let (s, step) = self.flush_start(id);
            s.flush_outcome(id, step, now)
        } else {
            (self, ReadyStepView::Done(false))
        }
    }

    /// What is done for the port `id`, which is ready to be written at the time `now`.
    pub open spec fn ready_start(self, id: PortId, now: u64) -> (ProxyView, ReadyStepView) {
        if self.has(id) && self.ports[id].connecting {
            (self, ReadyStepView::AskError(self.ports[id].sock))
        } else {
            self.drained(id, now)
        }
    }

    /// What is done for the port `id` after its socket reported `error`: where the connection
    /// failed, the port ends.
    pub open spec fn ready_connected(self, id: PortId, error: Result<i32, Errno>, now: u64) -> (
        ProxyView,
        ReadyStepView,
    ) {
        let (s, ok) = self.connect_finished(id, connect_state(error));
        if ok {
            s.drained(id, now)
        } else {
            (s.killed(id, now), ReadyStepView::Done(true))
        }
    }

    /// What is done for the port `id` after an attempt to send.
    pub open spec fn ready_sent(self, id: PortId, reply: SendReply, now: u64) -> (
        ProxyView,
        ReadyStepView,
    ) {
        let (s, step) = self.flush_resume(id, reply);
        s.flush_outcome(id, step, now)
    }
}

impl ProxyState {
    fn end_flush(&mut self, id: PortId, step: FlushStep, now: u64) -> (r: ReadyStep)
        requires
            old(self).wf(),
            now + SERIAL_RECONNECT_INTERVAL <= u64::MAX,
        ensures
            final(self).wf(),
            (final(self)@, r@) == old(self)@.flush_outcome(id, step@, now),
            r is Send ==> step is Send && final(self)@ == old(self)@,
    {
        match step {
            FlushStep::Send(q) => ReadyStep::Send(q),
            FlushStep::Done(ok) => {
                if !ok {
                    self.killport(id, now);
                }
                ReadyStep::Done(!ok)
            },
        }
    }

    fn drain(&mut self, id: PortId, now: u64) -> (r: ReadyStep)
        requires
            old(self).wf(),
            now + SERIAL_RECONNECT_INTERVAL <= u64::MAX,
        ensures
            final(self).wf(),
            (final(self)@, r@) == old(self)@.drained(id, now),
            r is Send ==> final(self)@.has(id) && final(self)@.ports[id].tx_buf.len() > 0,
    {
        let waiting = match self.ports.get(id) {
            Some(p) => p.tx_buf.len() > 0,
            None => false,
        };
        if !waiting {
            return ReadyStep::Done(false);
        }
        let step = self.flush_pending_write(id);
        self.end_flush(id, step, now)
    }

    /// Serves the port `id`, which is ready to be written at the time `now`.
    pub fn handle_writable(&mut self, id: PortId, now: u64) -> (r: ReadyStep)
        requires
            old(self).wf(),
            now + SERIAL_RECONNECT_INTERVAL <= u64::MAX,
        ensures
            final(self).wf(),
            (final(self)@, r@) == old(self)@.ready_start(id, now),
            r is Send ==> final(self)@.has(id) && final(self)@.ports[id].tx_buf.len() > 0,
    {
        if let Some(p) = self.ports.get(id) {
            if p.connecting {
                return ReadyStep::AskError(p.sock);
            }
        }
        self.drain(id, now)
    }

    /// Goes on with the port `id`, whose socket reported `error` or could not be asked.
    pub fn writable_connected(&mut self, id: PortId, error: Result<i32, Errno>, now: u64) -> (r:
        ReadyStep)
        requires
            old(self).wf(),
            now + SERIAL_RECONNECT_INTERVAL <= u64::MAX,
        ensures
            final(self).wf(),
            (final(self)@, r@) == old(self)@.ready_connected(id, error, now),
            r is Send ==> final(self)@.has(id) && final(self)@.ports[id].tx_buf.len() > 0,
    {
        if self.finish_pending_connect(id, error) {
            self.drain(id, now)
        } else {
            self.killport(id, now);
            ReadyStep::Done(true)
        }
    }

    /// Goes on with the port `id` after an attempt to send.
    pub fn writable_sent(&mut self, id: PortId, reply: SendReply, now: u64) -> (r: ReadyStep)
        requires
            old(self).wf(),
            old(self)@.has(id),
            old(self)@.ports[id].tx_buf.len() > 0,
            reply.got <= old(self)@.flush_part(id).len(),
            now + SERIAL_RECONNECT_INTERVAL <= u64::MAX,
        ensures
            final(self).wf(),
            (final(self)@, r@) == old(self)@.ready_sent(id, reply, now),
            r is Send ==> final(self)@.has(id) && final(self)@.ports[id].tx_buf.len() > 0,
    {
        let step = self.flush_reply(id, reply);
        self.end_flush(id, step, now)
    }
}

/// A connection that could not be made takes its client along: where the port `id` was being
/// connected for the client `client`, both are gone when the connection fails, whatever
/// waited for it.
pub proof fn lemma_failed_connection_ends_both(
    s: ProxyView,
    id: PortId,
    client: PortId,
    error: Result<i32, Errno>,
    now: u64,
)
    requires
        s.wf(),
        s.has(id),
        s.has(client),
        id != client,
        s.ports[id].cls == PortClass::Connection,
        s.ports[client].cls == PortClass::Connection,
        s.ports[id].connecting,
        s.ports[id].peer == Some(client),
        s.ports[client].sock >= 0,
        connect_state(error) == ConnectState::Failed,
    ensures
        ({
            let (t, step) = s.ready_connected(id, error, now);
            step == ReadyStepView::Done(true) && !t.has(id) && !t.has(client)
        }),
{
    lemma_joined_connections_end_together(s, id, client, now);
}

} // verus!
