//! What follows from an event: breaks and writes in order, and what their failures mean.
//!
//! A [`Round`] is carried out step by step. A step either asks for a break or a write, whose
//! result is handed back, or changes the state itself.
use vstd::prelude::*;
use crate::bytes::copy_of;
use crate::port::{PortId, PortView, SCRIPT_READ};
use crate::splitter::{
    lemma_console_text_is_ignored, lemma_packet_is_recognised, packet_bytes, GdbView, DOLLAR, HASH,
    MAX_GDB_BUF, MINUS, PLUS,
};
use crate::state::{script_ref_ok, ProxyState, ProxyView, SERIAL_RECONNECT_INTERVAL};
use crate::telnet::{break_views, iac_startup, telnet_startup, BreakJob, BreakRequest, BreakView};
use crate::write::WriteJob;

verus! {

/// What the failure of a write means for the round.
#[derive(Debug, Clone, Copy, PartialEq, Eq, Structural)]
pub enum OnFail {
    /// Nothing.
    Ignore,
    /// The port that was written to ends later, and so does one without a descriptor.
    Mark,
    /// The given port ends at once, and the round with it.
    Stop(PortId),
}

/// One task of a round.
pub enum Task {
    /// Write `data` to the port `to`.
    Write { to: PortId, data: Vec<u8>, oob: bool, on_fail: OnFail },
    /// End the ports that were marked, as clients of the script port if one is given.
    KillMarked { script: Option<PortId> },
    /// Hand `data`, which the port `from` received, to the script clients it is shared with.
    Script { from: PortId, data: Vec<u8> },
    /// Forget the collected debugger packet.
    ResetGdb,
}

/// The abstract value of a [`Task`].
#[verifier::ext_equal]
pub enum TaskView {
    Write { to: PortId, data: Seq<u8>, oob: bool, on_fail: OnFail },
    KillMarked { script: Option<PortId> },
    Script { from: PortId, data: Seq<u8> },
    ResetGdb,
}

impl View for Task {
    type V = TaskView;

    open spec fn view(&self) -> TaskView {
        match self {
            Task::Write { to, data, oob, on_fail } => TaskView::Write {
                to: *to,
                data: data@,
                oob: *oob,
                on_fail: *on_fail,
            },
            Task::KillMarked { script } => TaskView::KillMarked { script: *script },
            Task::Script { from, data } => TaskView::Script { from: *from, data: data@ },
            Task::ResetGdb => TaskView::ResetGdb,
        }
    }
}

/// The abstract values of `v`.
pub open spec fn task_views(v: Seq<Task>) -> Seq<TaskView> {
    v.map_values(|t: Task| t@)
}

/// Breaks and tasks that are still to be carried out, in this order.
pub struct Round {
    pub breaks: Vec<BreakRequest>,
    pub tasks: Vec<Task>,
    /// Ports whose write failed.
    pub marked: Vec<PortId>,
    /// No further port is read in this turn.
    pub stop: bool,
}

/// The abstract value of a [`Round`].
#[verifier::ext_equal]
pub struct RoundView {
    pub breaks: Seq<BreakView>,
    pub tasks: Seq<TaskView>,
    pub marked: Seq<PortId>,
    pub stop: bool,
}

impl View for Round {
    type V = RoundView;

    open spec fn view(&self) -> RoundView {
        RoundView {
            breaks: break_views(self.breaks@),
            tasks: task_views(self.tasks@),
            marked: self.marked@,
            stop: self.stop,
        }
    }
}

/// What a round needs next.
pub enum Action {
    /// Send the break sequence; whether that succeeds does not matter.
    Break(BreakJob),
    /// Carry out the write and hand its result to [`Round::wrote`].
    Write(WriteJob),
    /// Nothing; go on.
    Next,
    /// The round is over. The value says that no further port is read in this turn.
    Finished(bool),
}

/// The abstract value of an [`Action`].
#[verifier::ext_equal]
pub enum ActionView {
    Break(BreakView),
    Write { to: PortId, data: Seq<u8>, oob: bool },
    Next,
    Finished(bool),
}

impl Action {
    /// The job, if there is one, has not begun.
    pub open spec fn starts(&self) -> bool {
        match self {
            Action::Break(job) => job.pos == 0,
            Action::Write(job) => job.written == 0,
            _ => true,
        }
    }
}

impl View for Action {
    type V = ActionView;

    open spec fn view(&self) -> ActionView {
        match self {
            Action::Break(job) => ActionView::Break(BreakView { to: job.to, bytes: job.bytes@ }),
            Action::Write(job) => ActionView::Write {
                to: job.port,
                data: job.data@,
                oob: job.oob,
            },
            Action::Next => ActionView::Next,
            Action::Finished(stop) => ActionView::Finished(*stop),
        }
    }
}

impl RoundView {
    /// A round with nothing to do.
    pub open spec fn empty(stop: bool) -> RoundView {
        RoundView { breaks: Seq::empty(), tasks: Seq::empty(), marked: Seq::empty(), stop }
    }

    /// A round of `tasks`.
    pub open spec fn of(tasks: Seq<TaskView>) -> RoundView {
        RoundView { breaks: Seq::empty(), tasks, marked: Seq::empty(), stop: false }
    }
}

/// Those of `ids` that are ports, in their order.
pub open spec fn present(ports: Map<PortId, PortView>, ids: Seq<PortId>) -> Seq<PortId>
    decreases ids.len(),
{
    if ids.len() == 0 {
        ids
    } else if ports.dom().contains(ids.last()) {
        present(ports, ids.drop_last()).push(ids.last())
    } else {
        present(ports, ids.drop_last())
    }
}

/// One write of `data` to each of `ids`; where it fails, that port is marked.
pub open spec fn broadcast(ids: Seq<PortId>, data: Seq<u8>) -> Seq<TaskView> {
    ids.map_values(|to: PortId| TaskView::Write { to, data, oob: false, on_fail: OnFail::Mark })
}

/// The writes that open a Telnet connection on the port `to`.
pub open spec fn startup_tasks(to: PortId) -> Seq<TaskView> {
    telnet_startup().map_values(
        |data: Seq<u8>| TaskView::Write { to, data, oob: false, on_fail: OnFail::Ignore },
    )
}

impl ProxyView {
    /// The state after each of `ids` was ended at the time `now`, in order, as a client of
    /// the script port if one is given.
    pub open spec fn all_killed(
        self,
        script: Option<PortId>,
        ids: Seq<PortId>,
        now: u64,
    ) -> ProxyView
        decreases ids.len(),
    {
        if ids.len() == 0 {
            self
        } else {
            let s = self.all_killed(script, ids.drop_last(), now);
            match script {
                Some(sr) => s.script_client_killed(sr, ids.last(), now),
                None => s.killed(ids.last(), now),
            }
        }
    }

    /// What it takes to hand `data` to the clients of the script port `sr`.
    pub open spec fn client_tasks(self, sr: PortId, data: Seq<u8>) -> Seq<TaskView> {
        let sp = self.ports[sr];
        let writes = broadcast(present(self.ports, sp.clients), data).push(
            TaskView::KillMarked { script: Some(sr) },
        );
        if sp.break_port {
            writes.push(TaskView::ResetGdb)
        } else {
            writes
        }
    }

    /// What the clients of the script port `sr` get of `data`: everything, or on a debugger
    /// port with filtering the packet that `data` completes.
    pub open spec fn script_written(self, sr: PortId, data: Seq<u8>) -> (ProxyView, Seq<TaskView>) {
        if self.ports[sr].break_port && self.settings.gdb_split {
            let s = ProxyView { gdb: self.gdb.after(data), ..self };
            if self.gdb.transmits(data) {
                (s, s.client_tasks(sr, s.gdb.packet))
            } else {
                (s, Seq::empty())
            }
        } else {
            (self, self.client_tasks(sr, data))
        }
    }

    /// What is done with `data` that the port `from` received, on behalf of script clients.
    pub open spec fn shared(self, from: PortId, data: Seq<u8>) -> (ProxyView, Seq<TaskView>) {
        let p = self.ports[from];
        if self.has(from) && p.mode & SCRIPT_READ != 0 {
            match p.script_ref {
                Some(sr) => self.script_written(sr, data),
                None => (self, Seq::empty()),
            }
        } else {
            (self, Seq::empty())
        }
    }

    /// There is a port `id`, and it has a descriptor.
    pub open spec fn is_open(self, id: PortId) -> bool {
        self.has(id) && self.ports[id].sock >= 0
    }

    /// One step of the round `r` at the time `now`. A port without a descriptor is marked in
    /// place of a write that would mark it if it failed.
    pub open spec fn round_step(
        self,
        r: RoundView,
        now: u64,
    ) -> (ProxyView, RoundView, ActionView) {
        if r.breaks.len() > 0 {
            (self, RoundView { breaks: r.breaks.skip(1), ..r }, ActionView::Break(r.breaks[0]))
        } else if r.tasks.len() == 0 {
            (self, r, ActionView::Finished(r.stop))
        } else {
            let rest = r.tasks.skip(1);
            match r.tasks[0] {
                TaskView::Write { to, data, oob, on_fail } => if on_fail == OnFail::Mark
                    && !self.is_open(to) {
                    (
                        self,
                        RoundView { tasks: rest, marked: r.marked.push(to), ..r },
                        ActionView::Next,
                    )
                } else {
                    (self, r, ActionView::Write { to, data, oob })
                },
                TaskView::KillMarked { script } => (
                    self.all_killed(script, r.marked, now),
                    RoundView { tasks: rest, marked: Seq::empty(), ..r },
                    ActionView::Next,
                ),
                TaskView::Script { from, data } => {
                    let (s, tasks) = self.shared(from, data);
                    (s, RoundView { tasks: tasks + rest, ..r }, ActionView::Next)
                },
                TaskView::ResetGdb => (
                    ProxyView { gdb: self.gdb.emptied(), ..self },
                    RoundView { tasks: rest, ..r },
                    ActionView::Next,
                ),
            }
        }
    }

    /// The round `r` after the write that it asked for ended with `result`.
    pub open spec fn round_wrote(self, r: RoundView, result: Option<usize>, now: u64) -> (
        ProxyView,
        RoundView,
    ) {
        let rest = r.tasks.skip(1);
        match r.tasks[0] {
            TaskView::Write { to, data, oob, on_fail } => if write_failed(result) {
                match on_fail {
                    OnFail::Ignore => (self, RoundView { tasks: rest, ..r }),
                    OnFail::Mark => (
                        self,
                        RoundView { tasks: rest, marked: r.marked.push(to), ..r },
                    ),
                    OnFail::Stop(id) => (
                        self.killed(id, now),
                        RoundView { tasks: Seq::empty(), stop: true, ..r },
                    ),
                }
            } else {
                (self, RoundView { tasks: rest, ..r })
            },
            _ => (self, r),
        }
    }
}

/// A write that ended with `result` failed: it wrote nothing.
pub open spec fn write_failed(result: Option<usize>) -> bool {
    match result {
        Some(n) => n == 0,
        None => true,
    }
}

impl ProxyState {
    fn is_open(&self, id: PortId) -> (r: bool)
        ensures
            r == self@.is_open(id),
    {
        match self.ports.get(id) {
            Some(p) => p.sock >= 0,
            None => false,
        }
    }

    fn kill_all(&mut self, script: Option<PortId>, ids: &Vec<PortId>, now: u64)
        requires
            old(self).wf(),
            now + SERIAL_RECONNECT_INTERVAL <= u64::MAX,
        ensures
            final(self).wf(),
            final(self)@ == old(self)@.all_killed(script, ids@, now),
    {
        let mut k: usize = 0;
        while k < ids.len()
            invariant
                k <= ids@.len(),
                self.wf(),
                now + SERIAL_RECONNECT_INTERVAL <= u64::MAX,
                self@ == old(self)@.all_killed(script, ids@.take(k as int), now),
            decreases ids@.len() - k,
        {
            proof {
                assert(ids@.take(k + 1).drop_last() =~= ids@.take(k as int));
                assert(ids@.take(k + 1).last() == ids@[k as int]);
            }
            match script {
                Some(sr) => self.kill_script_client(sr, ids[k], now),
                None => self.killport(ids[k], now),
            }
            k = k + 1;
        }
        proof {
            assert(ids@.take(ids@.len() as int) =~= ids@);
        }
    }

    fn client_tasks(&self, sr: PortId, data: &Vec<u8>) -> (r: Vec<Task>)
        requires
            self@.has(sr),
        ensures
            task_views(r@) == self@.client_tasks(sr, data@),
    {
        let mut tasks: Vec<Task> = Vec::new();
        let mut break_port = false;
        if let Some(sp) = self.ports.get(sr) {
            break_port = sp.break_port;
            let mut k: usize = 0;
            proof {
                assert(task_views(tasks@) =~= broadcast(
                    present(self@.ports, sp.clients@.take(0)),
                    data@,
                ));
            }
            while k < sp.clients.len()
                invariant
                    k <= sp.clients@.len(),
                    task_views(tasks@) == broadcast(
                        present(self@.ports, sp.clients@.take(k as int)),
                        data@,
                    ),
                decreases sp.clients@.len() - k,
            {
                let ghost seen = present(self@.ports, sp.clients@.take(k as int));
                let ghost before = tasks@;
                proof {
                    assert(sp.clients@.take(k + 1).drop_last() =~= sp.clients@.take(k as int));
                }
                if self.ports.contains(sp.clients[k]) {
                    let task = Task::Write {
                        to: sp.clients[k],
                        data: copy_of(data),
                        oob: false,
                        on_fail: OnFail::Mark,
                    };
                    tasks.push(task);
                    proof {
                        assert(task_views(tasks@) =~= task_views(before).push(task@));
                        assert(broadcast(seen.push(sp.clients@[k as int]), data@) =~= broadcast(
                            seen,
                            data@,
                        ).push(task@));
                    }
                }
                k = k + 1;
            }
            proof {
                assert(sp.clients@.take(sp.clients@.len() as int) =~= sp.clients@);
            }
        }
        let ghost writes = tasks@;
        tasks.push(Task::KillMarked { script: Some(sr) });
        assert(task_views(tasks@) =~= task_views(writes).push(
            TaskView::KillMarked { script: Some(sr) },
        ));
        if break_port {
            let ghost before = tasks@;
            tasks.push(Task::ResetGdb);
            assert(task_views(tasks@) =~= task_views(before).push(TaskView::ResetGdb));
        }
        tasks
    }

    /// What it takes to hand `data` to the clients of the script port `sr`. On a debugger
    /// port with filtering they get the packet that `data` completes, if it completes one.
    pub fn write_script_clients(&mut self, sr: PortId, data: &Vec<u8>) -> (r: Vec<Task>)
        requires
            old(self).wf(),
            old(self)@.has(sr),
        ensures
            final(self).wf(),
            (final(self)@, task_views(r@)) == old(self)@.script_written(sr, data@),
    {
        let break_port = match self.ports.get(sr) {
            Some(sp) => sp.break_port,
            None => false,
        };
        if break_port && self.settings.gdb_split {
            let xmit = self.gdb.feed(data);
            if !xmit {
                let none: Vec<Task> = Vec::new();
                assert(task_views(none@) =~= Seq::<TaskView>::empty());
                return none;
            }
            let packet = copy_of(&self.gdb.packet);
            self.client_tasks(sr, &packet)
        } else {
            self.client_tasks(sr, data)
        }
    }

    /// What is done with `data` that the port `from` received, on behalf of script clients.
    pub fn share(&mut self, from: PortId, data: &Vec<u8>) -> (r: Vec<Task>)
        requires
            old(self).wf(),
        ensures
            final(self).wf(),
            (final(self)@, task_views(r@)) == old(self)@.shared(from, data@),
    {
        let none: Vec<Task> = Vec::new();
        assert(task_views(none@) =~= Seq::<TaskView>::empty());
        let script_ref = match self.ports.get(from) {
            Some(p) => {
                if p.mode & SCRIPT_READ == 0 {
                    return none;
                }
                p.script_ref
            },
            None => {
                return none;
            },
        };
        proof {
            assert(script_ref_ok(self@.ports, self@.ports[from].script_ref));
        }
        match script_ref {
            Some(sr) => self.write_script_clients(sr, data),
            None => none,
        }
    }
}

/// Prepends `front` to `tasks`.
fn prepend(front: Vec<Task>, tasks: &mut Vec<Task>)
    ensures
        task_views(final(tasks)@) == task_views(front@) + task_views(old(tasks)@),
{
    let mut all = front;
    all.append(tasks);
    assert(task_views(all@) =~= task_views(front@) + task_views(old(tasks)@));
    *tasks = all;
}

impl Round {
    /// A round with nothing to do.
    pub fn empty(stop: bool) -> (r: Round)
        ensures
            r@ == RoundView::empty(stop),
    {
        let r = Round { breaks: Vec::new(), tasks: Vec::new(), marked: Vec::new(), stop };
        assert(r@ =~= RoundView::empty(stop));
        r
    }

    /// A round of `tasks`.
    pub fn of(tasks: Vec<Task>) -> (r: Round)
        ensures
            r@ == RoundView::of(task_views(tasks@)),
    {
        let r = Round { breaks: Vec::new(), tasks, marked: Vec::new(), stop: false };
        assert(r@ =~= RoundView::of(task_views(tasks@)));
        r
    }

    /// Goes one step on with the round at the time `now`.
    pub fn step(&mut self, state: &mut ProxyState, now: u64) -> (r: Action)
        requires
            old(state).wf(),
            now + SERIAL_RECONNECT_INTERVAL <= u64::MAX,
        ensures
            final(state).wf(),
            (final(state)@, final(self)@, r@) == old(state)@.round_step(old(self)@, now),
            r.starts(),
    {
        if self.breaks.len() > 0 {
            let b = self.breaks.remove(0);
            proof {
                assert(break_views(self.breaks@) =~= break_views(old(self).breaks@).skip(1));
                assert(b@ == old(self)@.breaks[0]);
            }
            return Action::Break(BreakJob { to: b.to, bytes: b.bytes, pos: 0 });
        }
        if self.tasks.len() == 0 {
            return Action::Finished(self.stop);
        }
        proof {
            assert(old(self)@.tasks[0] == old(self).tasks@[0]@);
        }
        if let Task::Write { to, data, oob, on_fail } = &self.tasks[0] {
            let to = *to;
            if *on_fail == OnFail::Mark && !state.is_open(to) {
                let _ = self.tasks.remove(0);
                self.marked.push(to);
                proof {
                    assert(task_views(self.tasks@) =~= task_views(old(self).tasks@).skip(1));
                }
                return Action::Next;
            }
            return Action::Write(WriteJob { port: to, data: copy_of(data), oob: *oob, written: 0 });
        }
        let task = self.tasks.remove(0);
        proof {
            assert(task_views(self.tasks@) =~= task_views(old(self).tasks@).skip(1));
        }
        match task {
            Task::Write { .. } => {},
            Task::KillMarked { script } => {
                state.kill_all(script, &self.marked, now);
                self.marked = Vec::new();
            },
            Task::Script { from, data } => {
                let tasks = state.share(from, &data);
                prepend(tasks, &mut self.tasks);
            },
            Task::ResetGdb => {
                state.gdb.empty();
            },
        }
        Action::Next
    }

    /// Takes the result of the write that the last step asked for.
    pub fn wrote(&mut self, state: &mut ProxyState, result: Option<usize>, now: u64)
        requires
            old(state).wf(),
            now + SERIAL_RECONNECT_INTERVAL <= u64::MAX,
            old(self)@.tasks.len() > 0,
            old(self)@.tasks[0] is Write,
        ensures
            final(state).wf(),
            (final(state)@, final(self)@) == old(state)@.round_wrote(old(self)@, result, now),
    {
        proof {
            assert(old(self)@.tasks[0] == old(self).tasks@[0]@);
        }
        let task = self.tasks.remove(0);
        proof {
            assert(task_views(self.tasks@) =~= task_views(old(self).tasks@).skip(1));
        }
        let failed = match result {
            Some(n) => n == 0,
            None => true,
        };
        if let Task::Write { to, data: _, oob: _, on_fail } = task {
            if failed {
                match on_fail {
                    OnFail::Ignore => {},
                    OnFail::Mark => {
                        self.marked.push(to);
                    },
                    OnFail::Stop(id) => {
                        state.killport(id, now);
                        self.tasks = Vec::new();
                        self.stop = true;
                        assert(task_views(self.tasks@) =~= Seq::<TaskView>::empty());
                    },
                }
            }
        }
    }
}

/// The writes that open a Telnet connection on the port `to`.
pub fn startup(to: PortId) -> (r: Vec<Task>)
    ensures
        task_views(r@) == startup_tasks(to),
{
    let commands = iac_startup();
    let mut tasks: Vec<Task> = Vec::new();
    let mut k: usize = 0;
    while k < commands.len()
        invariant
            k <= commands@.len(),
            commands@.len() == telnet_startup().len(),
            forall|i: int|
                0 <= i < commands@.len() ==> (#[trigger] commands@[i])@ == telnet_startup()[i],
            tasks@.len() == k,
            forall|i: int| 0 <= i < k ==> (#[trigger] tasks@[i])@ == startup_tasks(to)[i],
        decreases commands@.len() - k,
    {
        tasks.push(
            Task::Write { to, data: copy_of(&commands[k]), oob: false, on_fail: OnFail::Ignore },
        );
        k = k + 1;
    }
    proof {
        assert(task_views(tasks@) =~= startup_tasks(to));
    }
    tasks
}

/// The round `r` after its next writes ended with `results`, each in the state that is given
/// for it.
pub open spec fn wrote_all(
    r: RoundView,
    states: Seq<ProxyView>,
    results: Seq<Option<usize>>,
    now: u64,
) -> RoundView
    decreases results.len(),
{
    if results.len() == 0 {
        r
    } else {
        states.last().round_wrote(
            wrote_all(r, states.drop_last(), results.drop_last(), now),
            results.last(),
            now,
        ).1
    }
}

/// Those of `ids` whose write failed.
pub open spec fn failures(ids: Seq<PortId>, results: Seq<Option<usize>>) -> Seq<PortId>
    decreases results.len(),
{
    if results.len() == 0 {
        Seq::empty()
    } else if write_failed(results.last()) {
        failures(ids, results.drop_last()).push(ids[results.len() - 1])
    } else {
        failures(ids, results.drop_last())
    }
}

/// A broadcast reaches every port: whatever came of the writes before it, the next write of
/// the round goes to the next port and carries all of the data; a port without a descriptor
/// is passed over as if its write had failed. Exactly the ports whose write failed are
/// marked, and what follows the broadcast is kept.
pub proof fn lemma_broadcast_reaches_every_port(
    r: RoundView,
    ids: Seq<PortId>,
    data: Seq<u8>,
    rest: Seq<TaskView>,
    states: Seq<ProxyView>,
    results: Seq<Option<usize>>,
    s: ProxyView,
    now: u64,
)
    requires
        r.breaks.len() == 0,
        r.tasks == broadcast(ids, data) + rest,
        r.marked.len() == 0,
        results.len() == states.len(),
        results.len() <= ids.len(),
    ensures
        ({
            let r1 = wrote_all(r, states, results, now);
            let k = results.len() as int;
            &&& r1 == (RoundView {
                breaks: r.breaks,
                tasks: broadcast(ids, data).skip(k) + rest,
                marked: failures(ids, results),
                stop: r.stop,
            })
            &&& k < ids.len() && s.is_open(ids[k]) ==> s.round_step(r1, now).2
                == (ActionView::Write { to: ids[k], data, oob: false })
            &&& k < ids.len() && !s.is_open(ids[k]) ==> s.round_step(r1, now) == (
                s,
                s.round_wrote(r1, None, now).1,
                ActionView::Next,
            )
        }),
    decreases results.len(),
{
    let k = results.len() as int;
    let all = broadcast(ids, data);
    if k == 0 {
        assert(all.skip(0) =~= all);
        assert(r.marked =~= Seq::<PortId>::empty());
    } else {
        lemma_broadcast_reaches_every_port(
            r,
            ids,
            data,
            rest,
            states.drop_last(),
            results.drop_last(),
            s,
            now,
        );
        let r0 = wrote_all(r, states.drop_last(), results.drop_last(), now);
        assert(r0.tasks == all.skip(k - 1) + rest);
        assert(r0.tasks[0] == all[k - 1]);
        assert(r0.tasks.skip(1) =~= all.skip(k) + rest);
    }
    if k < ids.len() {
        assert((all.skip(k) + rest)[0] == all[k]);
    }
}

/// A debugger client gets packets and nothing else: console text in front of a packet is
/// dropped, and every client of the debugger port gets the packet whole, once it is
/// complete. On its own the text gives the clients nothing.
pub proof fn lemma_debugger_gets_the_packet(
    s: ProxyView,
    sr: PortId,
    text: Seq<u8>,
    body: Seq<u8>,
    c1: u8,
    c2: u8,
)
    requires
        s.ports[sr].break_port,
        s.settings.gdb_split,
        s.gdb == GdbView::idle(),
        forall|i: int|
            0 <= i < text.len() ==> text[i] != PLUS && text[i] != MINUS && text[i] != DOLLAR,
        body.len() + 4 <= MAX_GDB_BUF,
        forall|i: int| 0 <= i < body.len() ==> body[i] != DOLLAR && body[i] != HASH,
        c1 != DOLLAR && c1 != PLUS && c1 != MINUS,
        c2 != DOLLAR && c2 != PLUS && c2 != MINUS,
    ensures
        s.script_written(sr, text) == (s, Seq::<TaskView>::empty()),
        s.script_written(sr, text + packet_bytes(body, c1, c2)).1 == s.client_tasks(
            sr,
            packet_bytes(body, c1, c2),
        ),
{
    let packet = packet_bytes(body, c1, c2);
    lemma_console_text_is_ignored(s.gdb, text);
    lemma_packet_is_recognised(s.gdb, body, c1, c2);
    crate::splitter::lemma_chunks(s.gdb, text, packet);
    assert(s.gdb.packet + packet =~= packet);
}

} // verus!
