//! Laws of a shared line: what console clients and debugger clients get of it.
use vstd::prelude::*;
use crate::port::{PortClass, PortId, PortType, PortView, SockAddr};
use crate::round::{present, ActionView, OnFail, RoundView, TaskView};
use crate::splitter::{
    console_part, lemma_chunks, lemma_console_chunks, lemma_console_keeps_text,
    lemma_console_loses_packets, lemma_console_text_is_ignored, lemma_packet_is_recognised,
    packet_bytes, GdbView,
};
use crate::state::ProxyView;

verus! {

/// A piece of what a line carries.
pub enum Piece {
    /// Console text.
    Text(Seq<u8>),
    /// An acknowledgement or its opposite.
    Ack(u8),
    /// A packet with its two checksum digits.
    Packet { body: Seq<u8>, c1: u8, c2: u8 },
}

/// The piece is what it is called: text holds none of `+`, `-` and `$`, an acknowledgement is
/// `+` or `-`, the body of a packet holds neither `$` nor `#`, and its checksum none of `$`,
/// `+` and `-`.
pub open spec fn is_piece(p: Piece) -> bool {
    match p {
        Piece::Text(text) => forall|i: int|
            0 <= i < text.len() ==> text[i] != 0x2b && text[i] != 0x2d && text[i] != 0x24,
        Piece::Ack(b) => b == 0x2b || b == 0x2d,
        Piece::Packet { body, c1, c2 } => {
            &&& forall|i: int| 0 <= i < body.len() ==> body[i] != 0x24 && body[i] != 0x23
            &&& c1 != 0x24 && c1 != 0x2b && c1 != 0x2d
            &&& c2 != 0x24 && c2 != 0x2b && c2 != 0x2d
        },
    }
}

/// The bytes of a piece on the line.
pub open spec fn bytes_of(p: Piece) -> Seq<u8> {
    match p {
        Piece::Text(text) => text,
        Piece::Ack(b) => seq![b],
        Piece::Packet { body, c1, c2 } => seq![0x24u8] + body + seq![0x23u8, c1, c2],
    }
}

/// The line that carries `pieces`.
pub open spec fn line_of(pieces: Seq<Piece>) -> Seq<u8>
    decreases pieces.len(),
{
    if pieces.len() == 0 {
        Seq::empty()
    } else {
        line_of(pieces.drop_last()) + bytes_of(pieces.last())
    }
}

/// The acknowledgements and packets of `pieces`.
pub open spec fn debugger_bytes(pieces: Seq<Piece>) -> Seq<u8>
    decreases pieces.len(),
{
    if pieces.len() == 0 {
        Seq::empty()
    } else if pieces.last() is Text {
        debugger_bytes(pieces.drop_last())
    } else {
        debugger_bytes(pieces.drop_last()) + bytes_of(pieces.last())
    }
}

/// The text and the acknowledgements of `pieces`.
pub open spec fn console_bytes(pieces: Seq<Piece>) -> Seq<u8>
    decreases pieces.len(),
{
    if pieces.len() == 0 {
        Seq::empty()
    } else if pieces.last() is Packet {
        console_bytes(pieces.drop_last())
    } else {
        console_bytes(pieces.drop_last()) + bytes_of(pieces.last())
    }
}

proof fn lemma_piece(s: GdbView, p: Piece)
    requires
        s.got_dollar == 0,
        is_piece(p),
        s.packet.len() + bytes_of(p).len() <= 8192,
    ensures
        s.after(bytes_of(p)).got_dollar == 0,
        s.after(bytes_of(p)).packet == if p is Text {
            s.packet
        } else {
            s.packet + bytes_of(p)
        },
        s.transmits(bytes_of(p)) == !(p is Text),
        console_part(s, bytes_of(p)) == if p is Packet {
            Seq::empty()
        } else {
            bytes_of(p)
        },
{
    match p {
        Piece::Text(text) => {
            if text.len() > 0 {
                lemma_console_text_is_ignored(s, text);
            }
            lemma_console_keeps_text(s, text);
        },
        Piece::Ack(b) => {
            let d = seq![b];
            let none = Seq::<u8>::empty();
            assert(d.drop_last() =~= none);
            assert(s.after(none) == s);
            assert(!s.transmits(none));
            assert(console_part(s, none) =~= none);
            assert(s.packet.push(b) =~= s.packet + d);
            assert(none + seq![b] =~= d);
            assert(console_part(s, d) =~= d);
        },
        Piece::Packet { body, c1, c2 } => {
            let none = Seq::<u8>::empty();
            assert(bytes_of(p) =~= packet_bytes(body, c1, c2));
            lemma_packet_is_recognised(s, body, c1, c2);
            lemma_console_loses_packets(s, none, body, c1, c2);
            assert(none + packet_bytes(body, c1, c2) =~= packet_bytes(body, c1, c2));
        },
    }
}

/// A line is taken apart: of any mixture of text, acknowledgements and packets that the buffer
/// has room for, the debugger has exactly the acknowledgements and packets, in their order,
/// to be passed on if there are any, and the console gets exactly the text and the
/// acknowledgements, in their order.
pub proof fn lemma_line_is_taken_apart(s: GdbView, pieces: Seq<Piece>)
    requires
        s.got_dollar == 0,
        forall|i: int| 0 <= i < pieces.len() ==> is_piece(#[trigger] pieces[i]),
        s.packet.len() + line_of(pieces).len() <= 8192,
    ensures
        s.after(line_of(pieces)).got_dollar == 0,
        s.after(line_of(pieces)).packet == s.packet + debugger_bytes(pieces),
        s.transmits(line_of(pieces)) == (debugger_bytes(pieces).len() > 0),
        console_part(s, line_of(pieces)) == console_bytes(pieces),
        debugger_bytes(pieces).len() <= line_of(pieces).len(),
    decreases pieces.len(),
{
    if pieces.len() == 0 {
        assert(s.packet + debugger_bytes(pieces) =~= s.packet);
    } else {
        let rest = pieces.drop_last();
        let p = pieces.last();
        assert forall|i: int| 0 <= i < rest.len() implies is_piece(#[trigger] rest[i]) by {
            assert(rest[i] == pieces[i]);
        }
        assert(is_piece(pieces[pieces.len() - 1]));
        lemma_line_is_taken_apart(s, rest);
        let at = s.after(line_of(rest));
        lemma_chunks(s, line_of(rest), bytes_of(p));
        lemma_console_chunks(s, line_of(rest), bytes_of(p));
        lemma_piece(at, p);
        assert(s.packet + debugger_bytes(pieces) =~= at.packet + if p is Text {
            Seq::empty()
        } else {
            bytes_of(p)
        });
        assert(console_part(s, line_of(pieces)) =~= console_bytes(pieces));
    }
}

/// What one byte does while there is room. A dollar sign opens a packet anew, wherever it
/// stands. Outside a packet an acknowledgement is for the debugger at once, and any other byte
/// for the console alone. Inside a packet every byte is held back for the debugger: a number
/// sign ends the body, the second byte behind it ends the packet, and that completes it; an
/// acknowledgement inside a packet is no step of it.
pub proof fn lemma_what_one_byte_does(s: GdbView, b: u8)
    requires
        s.packet.len() < 8192,
        s.got_dollar <= 3,
    ensures
        ({
            let t = s.after_byte(b);
            let ack = b == 0x2b || b == 0x2d;
            let inside = b == 0x24 || s.got_dollar > 0;
            &&& t.got_dollar == if b == 0x24 {
                1
            } else if ack || s.got_dollar == 0 {
                s.got_dollar as int
            } else if s.got_dollar == 1 {
                if b == 0x23 {
                    2
                } else {
                    1
                }
            } else if s.got_dollar == 2 {
                3
            } else {
                0
            }
            &&& t.packet == if inside || ack {
                s.packet.push(b)
            } else {
                s.packet
            }
            &&& t.held == if inside {
                s.held.push(b)
            } else {
                s.held
            }
            &&& s.completes(b) <==> (ack && s.got_dollar == 0) || (!ack && b != 0x24
                && s.got_dollar == 3)
            &&& s.console_gets(b) == if inside {
                Seq::empty()
            } else {
                seq![b]
            }
        }),
{
}

/// Where there is no room for one more byte, what was collected is dropped as no packet: the
/// console gets what was held back of it, and the byte, and nothing is passed on.
pub proof fn lemma_full_buffer_goes_to_the_console(s: GdbView, b: u8)
    requires
        s.packet.len() >= 8192,
    ensures
        s.after_byte(b).packet.len() == 0,
        s.after_byte(b).held.len() == 0,
        s.after_byte(b).got_dollar == 0,
        !s.completes(b),
        s.console_gets(b) == s.held.push(b),
{
}

/// Those of `ids` that are ports are found by a filter.
pub proof fn lemma_present_is_filter(ports: Map<PortId, PortView>, ids: Seq<PortId>)
    ensures
        present(ports, ids) == ids.filter(|id: PortId| ports.dom().contains(id)),
    decreases ids.len(),
{
    reveal(Seq::filter);
    if ids.len() > 0 {
        lemma_present_is_filter(ports, ids.drop_last());
    }
}

/// Each client of a script port is handed the data itself: there is one write of exactly
/// `data` to each client that is a port, in the order in which they came, and no other write.
/// Then clients whose write failed are ended as clients of that port, and on a debugger port
/// what was collected is forgotten.
pub proof fn lemma_each_client_gets_the_data(s: ProxyView, sr: PortId, data: Seq<u8>)
    ensures
        s.client_tasks(sr, data) == s.ports[sr].clients.filter(
            |id: PortId| s.ports.dom().contains(id),
        ).map_values(
            |to: PortId| TaskView::Write { to, data, oob: false, on_fail: OnFail::Mark },
        ) + seq![TaskView::KillMarked { script: Some(sr) }] + if s.ports[sr].break_port {
            seq![TaskView::ResetGdb]
        } else {
            Seq::empty()
        },
{
    lemma_present_is_filter(s.ports, s.ports[sr].clients);
    let writes = s.ports[sr].clients.filter(|id: PortId| s.ports.dom().contains(id)).map_values(
        |to: PortId| TaskView::Write { to, data, oob: false, on_fail: OnFail::Mark },
    );
    assert(s.client_tasks(sr, data) =~= writes + seq![
        TaskView::KillMarked { script: Some(sr) },
    ] + if s.ports[sr].break_port {
        seq![TaskView::ResetGdb]
    } else {
        Seq::empty()
    });
}

/// Debuggers get what is theirs: with filtering, and nothing collected before, each client of
/// a debugger port is written the acknowledgements and packets of the line, all of them and
/// in their order, at once; where there are none, nothing is written.
pub proof fn lemma_debuggers_get_acks_and_packets(
    s: ProxyView,
    sr: PortId,
    pieces: Seq<Piece>,
)
    requires
        s.ports[sr].break_port,
        s.settings.gdb_split,
        s.gdb.got_dollar == 0,
        s.gdb.packet.len() == 0,
        forall|i: int| 0 <= i < pieces.len() ==> is_piece(#[trigger] pieces[i]),
        line_of(pieces).len() <= 8192,
    ensures
        s.script_written(sr, line_of(pieces)).1 == if debugger_bytes(pieces).len() > 0 {
            s.ports[sr].clients.filter(|id: PortId| s.ports.dom().contains(id)).map_values(
                |to: PortId|
                    TaskView::Write {
                        to,
                        data: debugger_bytes(pieces),
                        oob: false,
                        on_fail: OnFail::Mark,
                    },
            ) + seq![TaskView::KillMarked { script: Some(sr) }, TaskView::ResetGdb]
        } else {
            Seq::empty()
        },
        s.script_written(sr, line_of(pieces)).0.ports == s.ports,
{
    lemma_line_is_taken_apart(s.gdb, pieces);
    let (t, tasks) = s.script_written(sr, line_of(pieces));
    let bytes = debugger_bytes(pieces);
    assert(s.gdb.packet + bytes =~= bytes);
    if bytes.len() > 0 {
        lemma_each_client_gets_the_data(t, sr, bytes);
        let writes = s.ports[sr].clients.filter(
            |id: PortId| s.ports.dom().contains(id),
        ).map_values(
            |to: PortId|
                TaskView::Write { to, data: bytes, oob: false, on_fail: OnFail::Mark },
        );
        assert(tasks =~= writes + seq![
            TaskView::KillMarked { script: Some(sr) },
            TaskView::ResetGdb,
        ]);
    }
}

/// An acknowledgement and the packet behind it reach the debugger together, as they are.
pub proof fn lemma_ack_and_packet(s: ProxyView, sr: PortId, body: Seq<u8>, c1: u8, c2: u8)
    requires
        s.ports[sr].break_port,
        s.settings.gdb_split,
        s.gdb.got_dollar == 0,
        s.gdb.packet.len() == 0,
        is_piece(Piece::Packet { body, c1, c2 }),
        body.len() + 5 <= 8192,
    ensures
        ({
            let data = seq![0x2bu8, 0x24u8] + body + seq![0x23u8, c1, c2];
            s.script_written(sr, data).1 == s.ports[sr].clients.filter(
                |id: PortId| s.ports.dom().contains(id),
            ).map_values(
                |to: PortId| TaskView::Write { to, data, oob: false, on_fail: OnFail::Mark },
            ) + seq![TaskView::KillMarked { script: Some(sr) }, TaskView::ResetGdb]
        }),
{
    let pieces = seq![Piece::Ack(0x2b), Piece::Packet { body, c1, c2 }];
    let data = seq![0x2bu8, 0x24u8] + body + seq![0x23u8, c1, c2];
    reveal_with_fuel(line_of, 3);
    reveal_with_fuel(debugger_bytes, 3);
    assert(pieces.drop_last() =~= seq![Piece::Ack(0x2b)]);
    assert(pieces.drop_last().drop_last() =~= Seq::<Piece>::empty());
    assert(line_of(pieces) =~= data);
    assert(debugger_bytes(pieces) =~= data);
    lemma_debuggers_get_acks_and_packets(s, sr, pieces);
}

/// Without filtering, and on a plain script port, script clients get everything that comes
/// in, and the splitter is not touched.
pub proof fn lemma_unfiltered_clients_get_everything(s: ProxyView, sr: PortId, data: Seq<u8>)
    requires
        !s.settings.gdb_split || !s.ports[sr].break_port,
    ensures
        s.script_written(sr, data).0 == s,
        s.script_written(sr, data).1.take(
            s.ports[sr].clients.filter(|id: PortId| s.ports.dom().contains(id)).len() as int,
        ) == s.ports[sr].clients.filter(|id: PortId| s.ports.dom().contains(id)).map_values(
            |to: PortId| TaskView::Write { to, data, oob: false, on_fail: OnFail::Mark },
        ),
{
    lemma_each_client_gets_the_data(s, sr, data);
    let ids = s.ports[sr].clients.filter(|id: PortId| s.ports.dom().contains(id));
    let writes = ids.map_values(
        |to: PortId| TaskView::Write { to, data, oob: false, on_fail: OnFail::Mark },
    );
    assert(s.script_written(sr, data).1.take(ids.len() as int) =~= writes);
}

/// What a port receives is shared with script clients exactly where its mode says so and it
/// is attached to a script port.
pub proof fn lemma_sharing_goes_by_mode(s: ProxyView, from: PortId, data: Seq<u8>)
    ensures
        s.has(from) && s.ports[from].mode & 0x4 != 0 && s.ports[from].script_ref is Some
            ==> s.shared(from, data) == s.script_written(s.ports[from].script_ref->0, data),
        !s.has(from) || s.ports[from].mode & 0x4 == 0 || s.ports[from].script_ref is None
            ==> s.shared(from, data) == (s, Seq::<TaskView>::empty()),
{
}

/// Consoles and debuggers of a serial line get each their own: of a line of pieces, read
/// while nothing is collected, every client of the device is written the text and the
/// acknowledgements in one write, in the order of the clients, and then the line is shared
/// with script clients whole.
pub proof fn lemma_serial_consoles_get_text(
    s: ProxyView,
    id: PortId,
    sr: PortId,
    pieces: Seq<Piece>,
    src: Option<SockAddr>,
    now: u64,
)
    requires
        s.has(id),
        s.ports[id].cls == PortClass::Remote,
        s.ports[id].port_type == PortType::Rs232,
        s.ports[id].script_ref == Some(sr),
        s.ports[sr].break_port,
        s.settings.gdb_split,
        !s.settings.telnet_negotiation,
        s.gdb.got_dollar == 0,
        s.gdb.packet.len() == 0,
        forall|i: int| 0 <= i < pieces.len() ==> is_piece(#[trigger] pieces[i]),
        0 < line_of(pieces).len() <= 8192,
    ensures
        ({
            let data = line_of(pieces);
            let round = s.remote_read(id, data, src, now).1;
            let text = console_bytes(pieces);
            &&& round.breaks.len() == 0
            &&& !round.stop
            &&& round.tasks == (if text.len() > 0 {
                s.ports[id].clients.map_values(
                    |to: PortId|
                        TaskView::Write { to, data: text, oob: false, on_fail: OnFail::Mark },
                )
            } else {
                Seq::empty()
            }) + seq![
                TaskView::KillMarked { script: None },
                TaskView::Script { from: id, data },
            ]
        }),
{
    let data = line_of(pieces);
    lemma_line_is_taken_apart(s.gdb, pieces);
    let (s1, round) = s.remote_read(id, data, src, now);
    let text = console_bytes(pieces);
    assert(s1.console_data(id, data) == text);
    assert(round.tasks =~= (if text.len() > 0 {
        s.ports[id].clients.map_values(
            |to: PortId| TaskView::Write { to, data: text, oob: false, on_fail: OnFail::Mark },
        )
    } else {
        Seq::empty()
    }) + seq![TaskView::KillMarked { script: None }, TaskView::Script { from: id, data }]);
}

/// A line that is not split goes to every console as it is.
pub proof fn lemma_unsplit_line_goes_to_every_console(
    s: ProxyView,
    id: PortId,
    data: Seq<u8>,
    src: Option<SockAddr>,
    now: u64,
)
    requires
        s.has(id),
        s.ports[id].cls == PortClass::Remote,
        s.ports[id].port_type == PortType::Rs232,
        !s.settings.gdb_split || s.ports[id].script_ref is None
            || !s.ports[s.ports[id].script_ref->0].break_port,
        !s.settings.telnet_negotiation,
        data.len() > 0,
    ensures
        ({
            let round = s.remote_read(id, data, src, now).1;
            &&& round.breaks.len() == 0
            &&& !round.stop
            &&& round.tasks == s.ports[id].clients.map_values(
                |to: PortId| TaskView::Write { to, data, oob: false, on_fail: OnFail::Mark },
            ) + seq![TaskView::KillMarked { script: None }, TaskView::Script { from: id, data }]
        }),
{
    let (s1, round) = s.remote_read(id, data, src, now);
    assert(s1.console_data(id, data) == data);
    assert(round.tasks =~= s.ports[id].clients.map_values(
        |to: PortId| TaskView::Write { to, data, oob: false, on_fail: OnFail::Mark },
    ) + seq![TaskView::KillMarked { script: None }, TaskView::Script { from: id, data }]);
}

/// A round is carried out in order: its breaks first, each once and as it is, then its tasks.
/// A write is asked for as it stands, except that a port without a descriptor is marked in
/// place of a write that would mark it.
pub proof fn lemma_round_goes_in_order(s: ProxyView, r: RoundView, now: u64)
    ensures
        ({
            let (s1, r1, action) = s.round_step(r, now);
            &&& r.breaks.len() > 0 ==> {
                &&& s1 == s
                &&& action == ActionView::Break(r.breaks[0])
                &&& r1.breaks == r.breaks.skip(1)
                &&& r1.tasks == r.tasks
                &&& r1.marked == r.marked
            }
            &&& r.breaks.len() == 0 && r.tasks.len() == 0 ==> s1 == s && r1 == r && action
                == ActionView::Finished(r.stop)
            &&& r.breaks.len() == 0 && r.tasks.len() > 0 ==> {
                &&& r.tasks[0] matches TaskView::Write { to, data, oob, on_fail } ==> {
                    &&& s1 == s
                    &&& on_fail != OnFail::Mark || (s.has(to) && s.ports[to].sock >= 0) ==> r1 == r
                        && action == (ActionView::Write { to, data, oob })
                    &&& on_fail == OnFail::Mark && !(s.has(to) && s.ports[to].sock >= 0) ==> {
                        &&& action == ActionView::Next
                        &&& r1.tasks == r.tasks.skip(1)
                        &&& r1.marked == r.marked.push(to)
                        &&& r1.stop == r.stop
                    }
                }
                &&& !(r.tasks[0] is Write) ==> action == ActionView::Next && r1.stop == r.stop
                &&& r.tasks[0] is ResetGdb ==> {
                    &&& s1.gdb.packet.len() == 0 && s1.gdb.held.len() == 0
                    &&& s1.gdb.got_dollar == s.gdb.got_dollar
                    &&& s1.ports == s.ports
                    &&& r1.tasks == r.tasks.skip(1)
                }
                &&& r.tasks[0] matches TaskView::Script { from, data } ==> {
                    &&& s1 == s.shared(from, data).0
                    &&& r1.tasks == s.shared(from, data).1 + r.tasks.skip(1)
                }
            }
        }),
{
}

/// What the result of a write means: a write of some bytes has no consequence but that the
/// round goes on behind it. One that failed, or wrote nothing, marks the port that was written
/// to, ends the given port and the round with it, or has no consequence either.
pub proof fn lemma_write_results(s: ProxyView, r: RoundView, result: Option<usize>, now: u64)
    requires
        r.tasks.len() > 0,
        r.tasks[0] is Write,
    ensures
        ({
            let (s1, r1) = s.round_wrote(r, result, now);
            let to = r.tasks[0]->Write_to;
            let on_fail = r.tasks[0]->Write_on_fail;
            let failed = result is None || result == Some(0usize);
            &&& r1.breaks == r.breaks
            &&& !failed || on_fail == OnFail::Ignore ==> s1 == s && r1.tasks == r.tasks.skip(1)
                && r1.marked == r.marked && r1.stop == r.stop
            &&& failed && on_fail == OnFail::Mark ==> s1 == s && r1.tasks == r.tasks.skip(1)
                && r1.marked == r.marked.push(to) && r1.stop == r.stop
            &&& on_fail matches OnFail::Stop(id) ==> (failed ==> {
                &&& s1 == s.killed(id, now)
                &&& r1.tasks.len() == 0
                &&& r1.stop
            })
        }),
{
}

/// Ports that were marked are ended in their order, as clients of the script port if one is
/// given, and are then marked no more.
pub proof fn lemma_marked_ports_are_ended(
    s: ProxyView,
    r: RoundView,
    script: Option<PortId>,
    first: Seq<PortId>,
    last: PortId,
    now: u64,
)
    requires
        r.breaks.len() == 0,
        r.tasks.len() > 0,
        r.tasks[0] == (TaskView::KillMarked { script }),
    ensures
        ({
            let (s1, r1, action) = s.round_step(r, now);
            &&& r1.marked.len() == 0 && r1.tasks == r.tasks.skip(1)
            &&& r.marked.len() == 0 ==> s1 == s
            &&& r.marked == first.push(last) ==> {
                let before = s.round_step(RoundView { marked: first, ..r }, now).0;
                s1 == match script {
                    Some(sr) => before.script_client_killed(sr, last, now),
                    None => before.killed(last, now),
                }
            }
        }),
{
    assert(first.push(last).drop_last() =~= first);
}

} // verus!
