//! One turn of the event loop: what follows from waiting, and the ports that are served.
//!
//! A [`Turn`] looks at the ports three times: first for data to read, next for room to write,
//! and last for urgent data. It is carried out step by step, and a port that ends the reading,
//! the writing or the urgent data keeps the ports behind it waiting for the next turn.
use nix::errno::Errno;
use vstd::prelude::*;
use crate::errno::{errno_is_interrupted, is_interrupted};
use crate::fdset::FdSet;
use crate::port::{PortId, RawFd};
use crate::state::{ProxyState, ProxyView};
use crate::table::rising;

verus! {

/// Milliseconds that the proxy waits for a port to be ready, and from one status display to
/// the next.
pub const STATUS_INTERVAL: u64 = 1000;

/// Milliseconds of rest where there is nothing to wait for.
pub const IDLE_PAUSE: u64 = 100;

/// What follows from waiting for ports to be ready.
#[derive(Debug, Clone, Copy, PartialEq, Eq, Structural)]
pub enum AfterWait {
    /// Nothing: the wait was interrupted.
    Again,
    /// Ports have descriptors that cannot be waited on, and let go of them.
    CleanUp,
    /// No port is ready; the status may be due.
    Idle,
    /// Ports are ready and are served; then the status may be due.
    Serve,
}

/// What follows from a wait that ended with `result`: the number of descriptors that are
/// ready, or an error.
pub fn after_wait(result: Result<i32, Errno>) -> (r: AfterWait)
    ensures
        r == (match result {
            Ok(n) => if n == 0 {
                AfterWait::Idle
            } else {
                AfterWait::Serve
            },
            Err(e) => if is_interrupted(e) {
                AfterWait::Again
            } else {
                AfterWait::CleanUp
            },
        }),
{
    match result {
        Ok(n) => {
            if n == 0 {
                AfterWait::Idle
            } else {
                AfterWait::Serve
            }
        },
        Err(e) => {
            if errno_is_interrupted(e) {
                AfterWait::Again
            } else {
                AfterWait::CleanUp
            }
        },
    }
}

/// What ports are looked at for, in this order.
#[derive(Debug, Clone, Copy, PartialEq, Eq, Structural)]
pub enum Phase {
    Read,
    Write,
    Urgent,
}

/// A turn under way.
pub struct Turn {
    /// Descriptors with data to read.
    pub readable: FdSet,
    /// Descriptors with room to write.
    pub writable: FdSet,
    /// Descriptors with urgent data.
    pub urgent: FdSet,
    pub phase: Phase,
    /// Ports that are still to be looked at in this phase.
    pub rest: Vec<PortId>,
}

/// The abstract value of a [`Turn`].
#[verifier::ext_equal]
pub struct TurnView {
    pub readable: Set<RawFd>,
    pub writable: Set<RawFd>,
    pub urgent: Set<RawFd>,
    pub phase: Phase,
    pub rest: Seq<PortId>,
}

impl View for Turn {
    type V = TurnView;

    open spec fn view(&self) -> TurnView {
        TurnView {
            readable: self.readable@,
            writable: self.writable@,
            urgent: self.urgent@,
            phase: self.phase,
            rest: self.rest@,
        }
    }
}

impl TurnView {
    /// The descriptors that are ready for what the phase is about.
    pub open spec fn ready(self) -> Set<RawFd> {
        match self.phase {
            Phase::Read => self.readable,
            Phase::Write => self.writable,
            Phase::Urgent => self.urgent,
        }
    }
}

/// What a turn needs next.
#[derive(Debug, Clone, Copy, PartialEq, Eq, Structural)]
pub enum TurnStep {
    /// Serve the port for what the phase is about.
    Serve(Phase, PortId),
    /// Nothing; go on.
    Next,
    /// The turn is over.
    Over,
}

/// `ids` are the ports of `s`, in rising order.
pub open spec fn lists_ports(s: ProxyView, ids: Seq<PortId>) -> bool {
    rising(ids) && forall|id: PortId| #![trigger ids.contains(id)] ids.contains(id) <==> s.has(id)
}

impl ProxyView {
    /// The port `id` has a descriptor, and that is one of `fds`.
    pub open spec fn is_ready(self, id: PortId, fds: Set<RawFd>) -> bool {
        self.has(id) && self.ports[id].sock >= 0 && fds.contains(self.ports[id].sock)
    }

    /// `t1` with `step` is the turn `t` one step on. The next port of the phase is served if
    /// it is there and ready at that time. Behind the last one the next phase begins, with the
    /// ports that there are then.
    pub open spec fn turn_steps_to(self, t: TurnView, t1: TurnView, step: TurnStep) -> bool {
        if t.rest.len() > 0 {
            &&& t1 == (TurnView { rest: t.rest.skip(1), ..t })
            &&& step == if self.is_ready(t.rest[0], t.ready()) {
                TurnStep::Serve(t.phase, t.rest[0])
            } else {
                TurnStep::Next
            }
        } else {
            match t.phase {
                Phase::Read => {
                    &&& t1 == (TurnView { phase: Phase::Write, rest: t1.rest, ..t })
                    &&& lists_ports(self, t1.rest)
                    &&& step == TurnStep::Next
                },
                Phase::Write => {
                    &&& t1 == (TurnView { phase: Phase::Urgent, rest: t1.rest, ..t })
                    &&& lists_ports(self, t1.rest)
                    &&& step == TurnStep::Next
                },
                Phase::Urgent => t1 == t && step == TurnStep::Over,
            }
        }
    }
}

impl ProxyState {
    /// The range of descriptors to wait on, or `None` where there is none.
    pub fn wait_range(&self) -> (r: Option<i32>)
        ensures
            r == if self@.nsockhandle > 0 {
                Some(self@.nsockhandle)
            } else {
                None
            },
    {
        if self.nsockhandle > 0 {
            Some(self.nsockhandle)
        } else {
            None
        }
    }

    /// Whether the status is to be displayed at the time `now`, where it was displayed last at
    /// the time `last`: it is out of date, and not displayed too often.
    pub fn status_due(&self, last: u64, now: u64) -> (r: bool)
        ensures
            r == (self@.status_dirty && now >= last + STATUS_INTERVAL),
    {
        self.status_dirty && now >= last && now - last >= STATUS_INTERVAL
    }

    fn is_ready(&self, id: PortId, fds: &FdSet) -> (r: bool)
        ensures
            r == self@.is_ready(id, fds@),
    {
        match self.ports.get(id) {
            Some(p) => p.sock >= 0 && fds.contains(p.sock),
            None => false,
        }
    }
}

impl Turn {
    /// The turn in which the given descriptors are ready.
    pub fn new(state: &ProxyState, readable: FdSet, writable: FdSet, urgent: FdSet) -> (t: Turn)
        requires
            state.wf(),
        ensures
            t@ == (TurnView {
                readable: readable@,
                writable: writable@,
                urgent: urgent@,
                phase: Phase::Read,
                rest: t@.rest,
            }),
            lists_ports(state@, t@.rest),
    {
        let rest = state.ports.ids();
        Turn { readable, writable, urgent, phase: Phase::Read, rest }
    }

    /// Goes one step on with the turn.
    pub fn step(&mut self, state: &ProxyState) -> (r: TurnStep)
        requires
            state.wf(),
        ensures
            state@.turn_steps_to(old(self)@, final(self)@, r),
    {
        if self.rest.len() > 0 {
            let id = self.rest.remove(0);
            assert(self.rest@ =~= old(self).rest@.skip(1));
            let ready = match self.phase {
                Phase::Read => state.is_ready(id, &self.readable),
                Phase::Write => state.is_ready(id, &self.writable),
                Phase::Urgent => state.is_ready(id, &self.urgent),
            };
            if ready {
                TurnStep::Serve(self.phase, id)
            } else {
                TurnStep::Next
            }
        } else {
            match self.phase {
                Phase::Read => {
                    self.phase = Phase::Write;
                    self.rest = state.ports.ids();
                    TurnStep::Next
                },
                Phase::Write => {
                    self.phase = Phase::Urgent;
                    self.rest = state.ports.ids();
                    TurnStep::Next
                },
                Phase::Urgent => TurnStep::Over,
            }
        }
    }

    /// Takes that the port that was served ends the phase.
    pub fn end_phase(&mut self)
        ensures
            final(self)@ == (TurnView { rest: Seq::empty(), ..old(self)@ }),
    {
        self.rest = Vec::new();
        assert(self.rest@ =~= Seq::<PortId>::empty());
    }
}

/// `turns` follow one another by `steps`, each in the state that is given for it.
pub open spec fn goes_through(
    turns: Seq<TurnView>,
    states: Seq<ProxyView>,
    steps: Seq<TurnStep>,
) -> bool {
    &&& turns.len() == states.len() + 1
    &&& steps.len() == states.len()
    &&& forall|k: int|
        0 <= k < states.len() ==> (#[trigger] states[k]).turn_steps_to(
            turns[k],
            turns[k + 1],
            steps[k],
        )
}

/// Every port gets its turn: as long as no port ends the phase, each port that was there when
/// the phase began is looked at, in order, and is served exactly if it is ready then, whatever
/// serving the ports before it did.
pub proof fn lemma_every_ready_port_is_served(
    turns: Seq<TurnView>,
    states: Seq<ProxyView>,
    steps: Seq<TurnStep>,
    k: int,
)
    requires
        goes_through(turns, states, steps),
        0 <= k < states.len(),
        k < turns[0].rest.len(),
    ensures
        turns[k] == (TurnView { rest: turns[0].rest.skip(k), ..turns[0] }),
        steps[k] == if states[k].is_ready(turns[0].rest[k], turns[0].ready()) {
            TurnStep::Serve(turns[0].phase, turns[0].rest[k])
        } else {
            TurnStep::Next
        },
    decreases k,
{
    let rest = turns[0].rest;
    if k > 0 {
        lemma_every_ready_port_is_served(turns, states, steps, k - 1);
        assert(states[k - 1].turn_steps_to(turns[k - 1], turns[k], steps[k - 1]));
        assert(rest.skip(k - 1).skip(1) =~= rest.skip(k));
    } else {
        assert(rest.skip(0) =~= rest);
    }
    assert(states[k].turn_steps_to(turns[k], turns[k + 1], steps[k]));
    assert(rest.skip(k)[0] == rest[k]);
}

} // verus!
