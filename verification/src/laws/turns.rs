//! Laws of a turn: which ports are served, and in which order.
use vstd::prelude::*;
use crate::state::ProxyView;
use crate::turn::{Phase, TurnStep, TurnView, IDLE_PAUSE, STATUS_INTERVAL};

verus! {

/// The next port is served for what the phase is about exactly if it is there, has a
/// descriptor, and that descriptor is ready for it: with data to read, with room to write, or
/// with urgent data. Either way the ports behind it are next.
pub proof fn lemma_ready_port_is_served(s: ProxyView, t: TurnView, t1: TurnView, step: TurnStep)
    requires
        s.turn_steps_to(t, t1, step),
        t.rest.len() > 0,
    ensures
        ({
            let id = t.rest[0];
            let fd = s.ports[id].sock;
            let ready = s.has(id) && fd >= 0 && match t.phase {
                Phase::Read => t.readable.contains(fd),
                Phase::Write => t.writable.contains(fd),
                Phase::Urgent => t.urgent.contains(fd),
            };
            &&& ready ==> step == TurnStep::Serve(t.phase, id)
            &&& !ready ==> step == TurnStep::Next
            &&& t1 == (TurnView { rest: t.rest.skip(1), ..t })
        }),
{
}

/// Ports are first looked at for data to read, then for room to write, then for urgent data,
/// each time all that there are then, by their identifiers; then the turn is over.
pub proof fn lemma_phases_follow(s: ProxyView, t: TurnView, t1: TurnView, step: TurnStep)
    requires
        s.turn_steps_to(t, t1, step),
        t.rest.len() == 0,
    ensures
        t.phase == Phase::Read ==> t1.phase == Phase::Write && step == TurnStep::Next,
        t.phase == Phase::Write ==> t1.phase == Phase::Urgent && step == TurnStep::Next,
        t.phase == Phase::Urgent ==> t1 == t && step == TurnStep::Over,
        t.phase != Phase::Urgent ==> {
            &&& t1.readable == t.readable && t1.writable == t.writable && t1.urgent == t.urgent
            &&& forall|id: usize| #[trigger] t1.rest.contains(id) <==> s.ports.dom().contains(id)
            &&& forall|i: int, j: int| 0 <= i < j < t1.rest.len() ==> t1.rest[i] < t1.rest[j]
        },
{
}

/// The proxy waits up to a second for a port to be ready, shows its status at most once in a
/// second, and rests for a tenth of a second where there is nothing to wait for.
pub proof fn lemma_waiting_times()
    ensures
        STATUS_INTERVAL == 1000,
        IDLE_PAUSE == 100,
{
}

} // verus!
