//! The Telnet layer of a client connection: commands are taken out of the byte stream, and
//! a break is passed on to the other side.
use vstd::prelude::*;
use crate::bytes::copy_of;
use crate::port::{PortClass, PortId, PortType, PortView, RawFd, IAC};
use crate::state::{ProxyState, ProxyView};

verus! {

/// The Telnet break command, behind an `IAC` byte.
pub const BRK: u8 = 0xf3;

/// The byte that the interrupt key sends.
pub const CTRL_C: u8 = 3;

/// A break to be sent to a port.
pub struct BreakRequest {
    pub to: PortId,
    pub bytes: Vec<u8>,
}

/// The abstract value of a [`BreakRequest`].
#[verifier::ext_equal]
pub struct BreakView {
    pub to: PortId,
    pub bytes: Seq<u8>,
}

impl View for BreakRequest {
    type V = BreakView;

    open spec fn view(&self) -> BreakView {
        BreakView { to: self.to, bytes: self.bytes@ }
    }
}

/// The abstract values of `v`.
pub open spec fn break_views(v: Seq<BreakRequest>) -> Seq<BreakView> {
    v.map_values(|b: BreakRequest| b@)
}

/// The two bytes of a Telnet break.
pub open spec fn telnet_break() -> Seq<u8> {
    seq![IAC, BRK]
}

/// What breaks mean on a connection: what a Telnet break sends, whether the interrupt key
/// is caught, and what it then sends.
#[verifier::ext_equal]
pub struct IacRules {
    pub on_break: Option<BreakView>,
    pub catches_ctrl_c: bool,
    pub on_ctrl_c: Option<BreakView>,
}

/// The Telnet layer after some bytes: the position in an unfinished command, the data
/// bytes so far, and the breaks so far.
#[verifier::ext_equal]
pub struct IacView {
    pub in_iac: int,
    pub out: Seq<u8>,
    pub breaks: Seq<BreakView>,
}

impl IacView {
    /// The beginning, `in_iac` bytes into a command.
    pub open spec fn start(in_iac: int) -> IacView {
        IacView { in_iac, out: Seq::empty(), breaks: Seq::empty() }
    }

    /// With `b` as one more data byte.
    pub open spec fn emit(self, b: u8) -> IacView {
        IacView { in_iac: 0, out: self.out.push(b), ..self }
    }

    /// With one more break, if there is one to send.
    pub open spec fn send(self, brk: Option<BreakView>) -> IacView {
        match brk {
            Some(brk) => IacView { in_iac: 0, breaks: self.breaks.push(brk), ..self },
            None => IacView { in_iac: 0, ..self },
        }
    }

    /// After one more byte. A doubled `IAC` is a data byte; a command is two bytes, or three
    /// where its second byte is not a break.
    pub open spec fn after_byte(self, rules: IacRules, b: u8) -> IacView {
        if self.in_iac > 0 {
            if b == IAC && self.in_iac == 1 {
                self.emit(b)
            } else if b == BRK {
                self.send(rules.on_break)
            } else if self.in_iac >= 2 {
                IacView { in_iac: 0, ..self }
            } else {
                IacView { in_iac: self.in_iac + 1, ..self }
            }
        } else if b == IAC {
            IacView { in_iac: 1, ..self }
        } else if rules.catches_ctrl_c && b == CTRL_C {
            self.send(rules.on_ctrl_c)
        } else {
            self.emit(b)
        }
    }

    /// After the bytes of `data`.
    pub open spec fn after(self, rules: IacRules, data: Seq<u8>) -> IacView
        decreases data.len(),
    {
        if data.len() == 0 {
            self
        } else {
            self.after(rules, data.drop_last()).after_byte(rules, data.last())
        }
    }
}

impl ProxyView {
    /// What breaks mean on the port `id`. On a script client they go to the remote that its
    /// script port is attached to; on another connection a Telnet break goes to the peer.
    pub open spec fn iac_rules(self, id: PortId) -> IacRules {
        let p = self.ports[id];
        if p.cls == PortClass::ScriptClient {
            match p.script_ref {
                Some(sr) => {
                    let sp = self.ports[sr];
                    IacRules {
                        on_break: match sp.rscript {
                            Some(rs) => Some(
                                BreakView {
                                    to: rs,
                                    bytes: if sp.break_port {
                                        self.settings.break_str
                                    } else {
                                        telnet_break()
                                    },
                                },
                            ),
                            None => None,
                        },
                        catches_ctrl_c: sp.break_port,
                        on_ctrl_c: match sp.rscript {
                            Some(rs) => Some(BreakView { to: rs, bytes: self.settings.break_str }),
                            None => None,
                        },
                    }
                },
                None => IacRules { on_break: None, catches_ctrl_c: false, on_ctrl_c: None },
            }
        } else {
            IacRules {
                on_break: match p.peer {
                    Some(peer) => Some(BreakView { to: peer, bytes: telnet_break() }),
                    None => None,
                },
                catches_ctrl_c: false,
                on_ctrl_c: None,
            }
        }
    }

    /// The Telnet layer of the port `id` after it received `data`.
    pub open spec fn iac_result(self, id: PortId, data: Seq<u8>) -> IacView {
        IacView::start(self.ports[id].in_iac as int).after(self.iac_rules(id), data)
    }

    /// The state after the Telnet layer of the port `id` took `data`.
    pub open spec fn after_iac(self, id: PortId, data: Seq<u8>) -> ProxyView {
        self.with_port(
            id,
            PortView { in_iac: self.iac_result(id, data).in_iac as u32, ..self.ports[id] },
        )
    }
}

impl ProxyState {
    fn break_to(&self, to: Option<PortId>, own: bool) -> (r: Option<BreakRequest>)
        ensures
            match r {
                Some(b) => to == Some(b.to) && b.bytes@ == if own {
                    self@.settings.break_str
                } else {
                    telnet_break()
                },
                None => to is None,
            },
    {
        match to {
            Some(to) => {
                let bytes = if own {
                    copy_of(&self.settings.break_str)
                } else {
                    vec![IAC, BRK]
                };
                assert(!own ==> bytes@ =~= telnet_break());
                Some(BreakRequest { to, bytes })
            },
            None => None,
        }
    }

    /// What is left of `data` from the port `id` without Telnet commands, the breaks to be
    /// sent, in order, and the position in a command that is unfinished.
    pub fn filter_iac(&self, id: PortId, data: &Vec<u8>) -> (r: (
        Vec<u8>,
        Vec<BreakRequest>,
        u32,
    ))
        requires
            self.wf(),
            self@.has(id),
        ensures
            r.0@ == self@.iac_result(id, data@).out,
            break_views(r.1@) == self@.iac_result(id, data@).breaks,
            r.2 == self@.iac_result(id, data@).in_iac,
            r.2 <= 2,
    {
        let ghost rules = self@.iac_rules(id);
        let mut current_iac: u32 = 0;
        let mut script_client = false;
        let mut script_ref: Option<PortId> = None;
        let mut peer: Option<PortId> = None;
        if let Some(p) = self.ports.get(id) {
            current_iac = p.in_iac;
            script_client = p.cls == PortClass::ScriptClient;
            script_ref = p.script_ref;
            peer = p.peer;
        }
        let mut break_port = false;
        let mut rscript: Option<PortId> = None;
        if let Some(sr) = script_ref {
            if let Some(sp) = self.ports.get(sr) {
                break_port = sp.break_port;
                rscript = sp.rscript;
            }
        }
        let ghost start = IacView::start(current_iac as int);
        let mut out: Vec<u8> = Vec::new();
        let mut breaks: Vec<BreakRequest> = Vec::new();
        let mut i: usize = 0;
        proof {
            assert(break_views(breaks@) =~= Seq::<BreakView>::empty());
        }
        while i < data.len()
            invariant
                i <= data@.len(),
                self.wf(),
                current_iac <= 2,
                start.after(rules, data@.take(i as int)) == (IacView {
                    in_iac: current_iac as int,
                    out: out@,
                    breaks: break_views(breaks@),
                }),
                rules == self@.iac_rules(id),
                self@.has(id),
                script_client == (self@.ports[id].cls == PortClass::ScriptClient),
                script_ref == self@.ports[id].script_ref,
                peer == self@.ports[id].peer,
                script_ref matches Some(sr) ==> self@.has(sr) && break_port
                    == self@.ports[sr].break_port && rscript == self@.ports[sr].rscript,
                script_ref is None ==> !break_port && rscript is None,
            decreases data@.len() - i,
        {
            let byte = data[i];
            let ghost before = breaks@;
            let ghost seen = start.after(rules, data@.take(i as int));
            proof {
                assert(data@.take(i + 1).drop_last() =~= data@.take(i as int));
            }
            let mut brk: Option<BreakRequest> = None;
            if current_iac > 0 {
                if byte == IAC && current_iac == 1 {
                    out.push(byte);
                    current_iac = 0;
                } else if byte == BRK {
                    if script_client {
                        brk = self.break_to(rscript, break_port);
                    } else {
                        brk = self.break_to(peer, false);
                    }
                    current_iac = 0;
                } else {
                    current_iac = current_iac + 1;
                }
                if current_iac >= 3 {
                    current_iac = 0;
                }
            } else if byte == IAC {
                current_iac = 1;
            } else if script_client && byte == CTRL_C && break_port {
                brk = self.break_to(rscript, true);
            } else {
                out.push(byte);
            }
            if let Some(b) = brk {
                breaks.push(b);
                assert(break_views(breaks@) =~= break_views(before).push(b@));
            }
            i = i + 1;
        }
        proof {
            assert(data@.take(data@.len() as int) =~= data@);
        }
        (out, breaks, current_iac)
    }

    /// Takes the Telnet commands out of `data`, which the port `id` received. The result is
    /// the data that is left, and the breaks to be sent, in order.
    pub fn process_iac_options(&mut self, id: PortId, data: &Vec<u8>) -> (r: (
        Vec<u8>,
        Vec<BreakRequest>,
    ))
        requires
            old(self).wf(),
            old(self)@.has(id),
        ensures
            final(self).wf(),
            final(self)@ == old(self)@.after_iac(id, data@),
            r.0@ == old(self)@.iac_result(id, data@).out,
            break_views(r.1@) == old(self)@.iac_result(id, data@).breaks,
    {
        let (out, breaks, in_iac) = self.filter_iac(id, data);
        if let Some(port) = self.ports.get_mut(id) {
            port.in_iac = in_iac;
        }
        (out, breaks)
    }
}

/// The negotiation that the proxy opens a Telnet connection with: it echoes, both sides
/// suppress go-ahead, and both sides send binary.
pub open spec fn telnet_startup() -> Seq<Seq<u8>> {
    seq![
        seq![0xffu8, 0xfbu8, 0x01u8],
        seq![0xffu8, 0xfbu8, 0x03u8],
        seq![0xffu8, 0xfdu8, 0x03u8],
        seq![0xffu8, 0xfbu8, 0x00u8],
        seq![0xffu8, 0xfdu8, 0x00u8],
    ]
}

/// The commands that the proxy opens a Telnet connection with, in order.
pub fn iac_startup() -> (r: Vec<Vec<u8>>)
    ensures
        r@.len() == telnet_startup().len(),
        forall|i: int| 0 <= i < r@.len() ==> (#[trigger] r@[i])@ == telnet_startup()[i],
{
    let mut r: Vec<Vec<u8>> = Vec::new();
    r.push(vec![0xff, 0xfb, 0x01]);
    r.push(vec![0xff, 0xfb, 0x03]);
    r.push(vec![0xff, 0xfd, 0x03]);
    r.push(vec![0xff, 0xfb, 0x00]);
    r.push(vec![0xff, 0xfd, 0x00]);
    proof {
        assert(r@[0]@ =~= telnet_startup()[0]);
        assert(r@[1]@ =~= telnet_startup()[1]);
        assert(r@[2]@ =~= telnet_startup()[2]);
        assert(r@[3]@ =~= telnet_startup()[3]);
        assert(r@[4]@ =~= telnet_startup()[4]);
    }
    r
}

/// A break sequence under way: the bytes before `pos` are done.
pub struct BreakJob {
    pub to: PortId,
    pub bytes: Vec<u8>,
    pub pos: usize,
}

/// What a break sequence needs next.
#[derive(Debug, Clone, Copy, PartialEq, Eq, Structural)]
pub enum BreakStep {
    /// Hold a break condition on the serial line.
    SerialBreak(RawFd),
    /// Write one byte to the port.
    Write(u8),
    /// Nothing is left.
    Done,
}

/// What a break sequence needs next at `pos`: on a serial line a Telnet break is a break
/// condition, everything else is written byte by byte.
pub open spec fn break_step(p: PortView, bytes: Seq<u8>, pos: int) -> BreakStep {
    if pos >= bytes.len() {
        BreakStep::Done
    } else if bytes[pos] == IAC && pos + 1 < bytes.len() && bytes[pos + 1] == BRK && p.port_type
        == PortType::Rs232 {
        BreakStep::SerialBreak(p.sock)
    } else {
        BreakStep::Write(bytes[pos])
    }
}

/// The position behind what a break sequence does at `pos`.
pub open spec fn break_next(p: PortView, bytes: Seq<u8>, pos: int) -> int {
    match break_step(p, bytes, pos) {
        BreakStep::SerialBreak(_) => pos + 2,
        BreakStep::Write(_) => pos + 1,
        BreakStep::Done => pos,
    }
}

/// All that a break sequence does from `pos` on, if every write succeeds.
pub open spec fn break_steps(p: PortView, bytes: Seq<u8>, pos: int) -> Seq<BreakStep>
    decreases bytes.len() - pos,
{
    if pos >= bytes.len() {
        Seq::empty()
    } else {
        seq![break_step(p, bytes, pos)] + break_steps(p, bytes, break_next(p, bytes, pos))
    }
}

impl ProxyState {
    /// What the break sequence `job` needs next.
    pub fn send_special_break(&self, job: &mut BreakJob) -> (r: BreakStep)
        requires
            self@.has(old(job).to),
            old(job).pos <= old(job).bytes@.len(),
        ensures
            r == break_step(self@.ports[old(job).to], old(job).bytes@, old(job).pos as int),
            final(job).pos == break_next(
                self@.ports[old(job).to],
                old(job).bytes@,
                old(job).pos as int,
            ),
            final(job).to == old(job).to,
            final(job).bytes@ == old(job).bytes@,
            final(job).pos <= final(job).bytes@.len(),
    {
        let n = job.bytes.len();
        let i = job.pos;
        if i >= n {
            return BreakStep::Done;
        }
        if let Some(p) = self.ports.get(job.to) {
            if job.bytes[i] == IAC && i + 1 < n && job.bytes[i + 1] == BRK && p.port_type
                == PortType::Rs232 {
                job.pos = i + 2;
                return BreakStep::SerialBreak(p.sock);
            }
        }
        job.pos = i + 1;
        BreakStep::Write(job.bytes[i])
    }
}

impl BreakJob {
    /// Takes the result of a write. After one that did not succeed nothing more is sent.
    pub fn wrote(&mut self, result: Option<usize>)
        requires
            old(self).pos <= old(self).bytes@.len(),
        ensures
            final(self).to == old(self).to,
            final(self).bytes@ == old(self).bytes@,
            final(self).pos == if result == Some(1usize) {
                old(self).pos as int
            } else {
                old(self).bytes@.len() as int
            },
    {
        let ok = match result {
            Some(n) => n == 1,
            None => false,
        };
        if !ok {
            self.pos = self.bytes.len();
        }
    }
}

/// The bytes that the steps stand for: a break condition for a Telnet break.
pub open spec fn bytes_of_steps(steps: Seq<BreakStep>) -> Seq<u8>
    decreases steps.len(),
{
    if steps.len() == 0 {
        Seq::empty()
    } else {
        (match steps[0] {
            BreakStep::SerialBreak(_) => telnet_break(),
            BreakStep::Write(b) => seq![b],
            BreakStep::Done => Seq::empty(),
        }) + bytes_of_steps(steps.skip(1))
    }
}

/// A break sequence is sent whole and in order: its steps stand for exactly its bytes. On
/// anything but a serial line every byte is written.
pub proof fn lemma_break_is_sent_whole(p: PortView, bytes: Seq<u8>, pos: int)
    requires
        0 <= pos <= bytes.len(),
    ensures
        bytes_of_steps(break_steps(p, bytes, pos)) == bytes.skip(pos),
        p.port_type != PortType::Rs232 ==> forall|i: int|
            0 <= i < break_steps(p, bytes, pos).len() ==> #[trigger] break_steps(
                p,
                bytes,
                pos,
            )[i] is Write,
    decreases bytes.len() - pos,
{
    let steps = break_steps(p, bytes, pos);
    if pos >= bytes.len() {
        assert(bytes.skip(pos) =~= Seq::<u8>::empty());
    } else {
        let step = break_step(p, bytes, pos);
        let next = break_next(p, bytes, pos);
        let rest = break_steps(p, bytes, next);
        lemma_break_is_sent_whole(p, bytes, next);
        assert(steps =~= seq![step] + rest);
        assert(steps.skip(1) =~= rest);
        match step {
            BreakStep::SerialBreak(_) => {
                assert(bytes.skip(pos) =~= telnet_break() + bytes.skip(pos + 2));
            },
            BreakStep::Write(b) => {
                assert(bytes.skip(pos) =~= seq![b] + bytes.skip(pos + 1));
            },
            BreakStep::Done => {},
        }
        assert forall|i: int|
            p.port_type != PortType::Rs232 && 0 <= i < steps.len() implies #[trigger] steps[i] is Write by {
            if i > 0 {
                assert(steps[i] == rest[i - 1]);
            }
        }
    }
}

/// How a connection is cut into reads does not matter: two reads give the data and the
/// breaks that one read of their bytes together would give.
pub proof fn lemma_iac_chunks(s: IacView, rules: IacRules, a: Seq<u8>, b: Seq<u8>)
    ensures
        s.after(rules, a + b) == s.after(rules, a).after(rules, b),
    decreases b.len(),
{
    if b.len() == 0 {
        assert(a + b =~= a);
    } else {
        lemma_iac_chunks(s, rules, a, b.drop_last());
        assert((a + b).drop_last() =~= a + b.drop_last());
        assert((a + b).last() == b.last());
    }
}

/// `data` as a Telnet client sends it: each `IAC` byte is doubled.
pub open spec fn escaped(data: Seq<u8>) -> Seq<u8>
    decreases data.len(),
{
    if data.len() == 0 {
        data
    } else if data.last() == IAC {
        escaped(data.drop_last()).push(IAC).push(IAC)
    } else {
        escaped(data.drop_last()).push(data.last())
    }
}

/// Escaped data arrives as it was: outside a command, and with no interrupt key that is
/// caught, every byte comes through, a doubled `IAC` as one, and no break is sent.
pub proof fn lemma_escaped_data_arrives(s: IacView, rules: IacRules, data: Seq<u8>)
    requires
        s.in_iac == 0,
        rules.catches_ctrl_c ==> !data.contains(CTRL_C),
    ensures
        s.after(rules, escaped(data)) == (IacView { in_iac: 0, out: s.out + data, breaks: s.breaks }),
    decreases data.len(),
{
    if data.len() == 0 {
        assert(s.out + data =~= s.out);
    } else {
        let rest = data.drop_last();
        assert forall|i: int| 0 <= i < rest.len() && rules.catches_ctrl_c implies rest[i] != CTRL_C by {
            assert(data[i] == rest[i]);
        }
        lemma_escaped_data_arrives(s, rules, rest);
        let e = escaped(rest);
        assert((s.out + rest).push(data.last()) =~= s.out + data);
        assert(data[data.len() - 1] == data.last());
        if data.last() == IAC {
            assert(e.push(IAC).push(IAC).drop_last() =~= e.push(IAC));
            assert(e.push(IAC).drop_last() =~= e);
            assert(s.after(rules, e.push(IAC)).in_iac == 1);
        } else {
            assert(e.push(data.last()).drop_last() =~= e);
        }
    }
}

} // verus!
