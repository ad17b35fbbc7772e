//! Laws of the Telnet layer: what comes through of it, and what breaks do.
use vstd::prelude::*;
use crate::port::{PortClass, PortId, PortType, PortView, SockAddr};
use crate::round::{OnFail, TaskView};
use crate::state::{ProxyView, SettingsView};
use crate::telnet::{
    break_next, break_step, break_steps, lemma_iac_chunks, BreakStep, BreakView, IacRules, IacView,
};

verus! {

/// What a Telnet client sends.
pub enum Item {
    /// A data byte that stands for itself.
    Byte(u8),
    /// The data byte 255, which is sent twice.
    Escape,
    /// A command of three bytes.
    Command { verb: u8, option: u8 },
    /// A break.
    Break,
    /// A break in the place of an option.
    LateBreak { verb: u8 },
    /// The interrupt key, where it is caught.
    Key,
}

/// The item is what it is called, where the interrupt key is caught or not.
pub open spec fn is_item(i: Item, key: bool) -> bool {
    match i {
        Item::Byte(b) => b != 0xff && !(key && b == 3),
        Item::Escape => true,
        Item::Command { verb, option } => verb != 0xff && verb != 0xf3 && option != 0xf3,
        Item::Break => true,
        Item::LateBreak { verb } => verb != 0xff && verb != 0xf3,
        Item::Key => key,
    }
}

/// The bytes of an item.
pub open spec fn item_bytes(i: Item) -> Seq<u8> {
    match i {
        Item::Byte(b) => seq![b],
        Item::Escape => seq![0xffu8, 0xffu8],
        Item::Command { verb, option } => seq![0xffu8, verb, option],
        Item::Break => seq![0xffu8, 0xf3u8],
        Item::LateBreak { verb } => seq![0xffu8, verb, 0xf3u8],
        Item::Key => seq![3u8],
    }
}

/// The bytes of `items`.
pub open spec fn stream_of(items: Seq<Item>) -> Seq<u8>
    decreases items.len(),
{
    if items.len() == 0 {
        Seq::empty()
    } else {
        stream_of(items.drop_last()) + item_bytes(items.last())
    }
}

/// The data in `items`.
pub open spec fn data_of(items: Seq<Item>) -> Seq<u8>
    decreases items.len(),
{
    if items.len() == 0 {
        Seq::empty()
    } else {
        let rest = data_of(items.drop_last());
        match items.last() {
            Item::Byte(b) => rest.push(b),
            Item::Escape => rest.push(0xff),
            _ => rest,
        }
    }
}

/// `brk` as a sequence.
pub open spec fn at_most_one(brk: Option<BreakView>) -> Seq<BreakView> {
    match brk {
        Some(brk) => seq![brk],
        None => Seq::empty(),
    }
}

/// The breaks in `items`, where a break sends `on_break` and the interrupt key `on_key`.
pub open spec fn breaks_of(
    items: Seq<Item>,
    on_break: Option<BreakView>,
    on_key: Option<BreakView>,
) -> Seq<BreakView>
    decreases items.len(),
{
    if items.len() == 0 {
        Seq::empty()
    } else {
        breaks_of(items.drop_last(), on_break, on_key) + match items.last() {
            Item::Break => at_most_one(on_break),
            Item::LateBreak { .. } => at_most_one(on_break),
            Item::Key => at_most_one(on_key),
            _ => Seq::empty(),
        }
    }
}

proof fn lemma_item(s: IacView, rules: IacRules, i: Item)
    requires
        s.in_iac == 0,
        is_item(i, rules.catches_ctrl_c),
    ensures
        s.after(rules, item_bytes(i)) == (IacView {
            in_iac: 0,
            out: s.out + match i {
                Item::Byte(b) => seq![b],
                Item::Escape => seq![0xffu8],
                _ => Seq::empty(),
            },
            breaks: s.breaks + match i {
                Item::Break => at_most_one(rules.on_break),
                Item::LateBreak { .. } => at_most_one(rules.on_break),
                Item::Key => at_most_one(rules.on_ctrl_c),
                _ => Seq::empty(),
            },
        }),
{
    let d = item_bytes(i);
    reveal_with_fuel(IacView::after, 4);
    assert(s.out + Seq::<u8>::empty() =~= s.out);
    assert(s.breaks + Seq::<BreakView>::empty() =~= s.breaks);
    match i {
        Item::Byte(b) => {
            assert(d.drop_last() =~= Seq::<u8>::empty());
            assert(s.out.push(b) =~= s.out + seq![b]);
        },
        Item::Escape => {
            assert(d.drop_last() =~= seq![0xffu8]);
            assert(d.drop_last().drop_last() =~= Seq::<u8>::empty());
            assert(s.out.push(0xff) =~= s.out + seq![0xffu8]);
        },
        Item::Command { verb, option } => {
            assert(d.drop_last() =~= seq![0xffu8, verb]);
            assert(d.drop_last().drop_last() =~= seq![0xffu8]);
            assert(d.drop_last().drop_last().drop_last() =~= Seq::<u8>::empty());
        },
        Item::Break => {
            assert(d.drop_last() =~= seq![0xffu8]);
            assert(d.drop_last().drop_last() =~= Seq::<u8>::empty());
            if let Some(brk) = rules.on_break {
                assert(s.breaks.push(brk) =~= s.breaks + seq![brk]);
            }
        },
        Item::LateBreak { verb } => {
            assert(d.drop_last() =~= seq![0xffu8, verb]);
            assert(d.drop_last().drop_last() =~= seq![0xffu8]);
            assert(d.drop_last().drop_last().drop_last() =~= Seq::<u8>::empty());
            if let Some(brk) = rules.on_break {
                assert(s.breaks.push(brk) =~= s.breaks + seq![brk]);
            }
        },
        Item::Key => {
            assert(d.drop_last() =~= Seq::<u8>::empty());
            if let Some(brk) = rules.on_ctrl_c {
                assert(s.breaks.push(brk) =~= s.breaks + seq![brk]);
            }
        },
    }
}

/// A Telnet stream is taken apart: data comes through in its order, a doubled 255 as one,
/// commands vanish, and each break and each interrupt key that is caught sends its break once,
/// in their order.
pub proof fn lemma_stream_is_taken_apart(s: IacView, rules: IacRules, items: Seq<Item>)
    requires
        s.in_iac == 0,
        forall|i: int|
            0 <= i < items.len() ==> is_item(#[trigger] items[i], rules.catches_ctrl_c),
    ensures
        s.after(rules, stream_of(items)) == (IacView {
            in_iac: 0,
            out: s.out + data_of(items),
            breaks: s.breaks + breaks_of(items, rules.on_break, rules.on_ctrl_c),
        }),
    decreases items.len(),
{
    if items.len() == 0 {
        assert(s.out + data_of(items) =~= s.out);
        assert(s.breaks + breaks_of(items, rules.on_break, rules.on_ctrl_c) =~= s.breaks);
    } else {
        let rest = items.drop_last();
        let i = items.last();
        assert forall|k: int| 0 <= k < rest.len() implies is_item(
            #[trigger] rest[k],
            rules.catches_ctrl_c,
        ) by {
            assert(rest[k] == items[k]);
        }
        assert(is_item(items[items.len() - 1], rules.catches_ctrl_c));
        lemma_stream_is_taken_apart(s, rules, rest);
        lemma_iac_chunks(s, rules, stream_of(rest), item_bytes(i));
        let at = s.after(rules, stream_of(rest));
        lemma_item(at, rules, i);
        assert(s.out + data_of(items) =~= at.out + match i {
            Item::Byte(b) => seq![b],
            Item::Escape => seq![0xffu8],
            _ => Seq::empty(),
        });
        assert(s.breaks + breaks_of(items, rules.on_break, rules.on_ctrl_c) =~= at.breaks
            + match i {
            Item::Break => at_most_one(rules.on_break),
            Item::LateBreak { .. } => at_most_one(rules.on_break),
            Item::Key => at_most_one(rules.on_ctrl_c),
            _ => Seq::empty(),
        });
    }
}

/// A Telnet client of the local port: its data goes to its peer in one write, and is shared
/// with script clients; each break is passed on to the peer as a Telnet break, before the
/// data.
pub proof fn lemma_telnet_client_is_served(
    s: ProxyView,
    id: PortId,
    peer: PortId,
    items: Seq<Item>,
    src: Option<SockAddr>,
    now: u64,
)
    requires
        s.has(id),
        s.ports[id].cls == PortClass::Connection,
        s.ports[id].in_iac == 0,
        s.ports[id].peer == Some(peer),
        s.ports[id].mode & 0x4 == 0,
        s.has(peer),
        s.ports[peer].sock >= 0,
        s.settings.telnet_negotiation,
        forall|i: int| 0 <= i < items.len() ==> is_item(#[trigger] items[i], false),
        stream_of(items).len() > 0,
    ensures
        ({
            let round = s.remote_read(id, stream_of(items), src, now).1;
            let data = data_of(items);
            &&& round.breaks == breaks_of(
                items,
                Some(BreakView { to: peer, bytes: seq![0xffu8, 0xf3u8] }),
                None,
            )
            &&& round.tasks == if data.len() > 0 {
                seq![
                    TaskView::Write { to: peer, data, oob: false, on_fail: OnFail::Stop(id) },
                    TaskView::Script { from: id, data },
                ]
            } else {
                Seq::empty()
            }
            &&& !round.stop
            &&& s.remote_read(id, stream_of(items), src, now).0.ports[id].in_iac == 0
        }),
{
    let stream = stream_of(items);
    let s1 = s.read_from(id, stream.len() as int, src);
    let rules = s1.iac_rules(id);
    lemma_stream_is_taken_apart(IacView::start(0), rules, items);
    assert(Seq::<u8>::empty() + data_of(items) =~= data_of(items));
    assert(rules.on_break->0.bytes =~= seq![0xffu8, 0xf3u8]);
    let breaks = breaks_of(items, rules.on_break, rules.on_ctrl_c);
    assert(Seq::<BreakView>::empty() + breaks =~= breaks);
    let s2 = s.remote_read(id, stream, src, now).0;
    assert(s2.is_open(peer));
}

/// A Telnet client of a plain script port: its data goes where its script port leads, and each
/// break to the remote end as a Telnet break.
pub proof fn lemma_telnet_script_client_is_served(
    s: ProxyView,
    id: PortId,
    sr: PortId,
    rs: PortId,
    items: Seq<Item>,
    now: u64,
)
    requires
        s.has(id),
        s.ports[id].cls == PortClass::ScriptClient,
        s.ports[id].in_iac == 0,
        s.ports[id].mode == 0,
        s.ports[id].script_ref == Some(sr),
        id != sr,
        id != rs,
        !s.ports[sr].break_port,
        s.ports[sr].script_in_use,
        s.ports[sr].rscript == Some(rs),
        s.has(rs),
        s.ports[rs].mode & 0x2 != 0,
        s.ports[sr].lscript is None,
        forall|i: int| 0 <= i < items.len() ==> is_item(#[trigger] items[i], false),
        stream_of(items).len() > 0,
    ensures
        ({
            let round = s.script_client_read(id, stream_of(items), now).1;
            let data = data_of(items);
            &&& round.breaks == breaks_of(
                items,
                Some(BreakView { to: rs, bytes: seq![0xffu8, 0xf3u8] }),
                None,
            )
            &&& round.tasks == if data.len() > 0 {
                seq![
                    TaskView::Write { to: rs, data, oob: false, on_fail: OnFail::Stop(rs) },
                ]
            } else {
                Seq::empty()
            }
            &&& !round.stop
        }),
{
    assert(0u32 & 0x10u32 == 0) by (bit_vector);
    let stream = stream_of(items);
    let s1 = s.read_from(id, stream.len() as int, None);
    let rules = s1.iac_rules(id);
    assert(s1.ports[sr] == s.ports[sr]);
    assert(rules.on_break->0.bytes =~= seq![0xffu8, 0xf3u8]);
    lemma_stream_is_taken_apart(IacView::start(0), rules, items);
    assert(Seq::<u8>::empty() + data_of(items) =~= data_of(items));
    lemma_breaks_without_keys(items, rules.on_break, rules.on_ctrl_c, None);
    let breaks = breaks_of(items, rules.on_break, rules.on_ctrl_c);
    assert(Seq::<BreakView>::empty() + breaks =~= breaks);
    let (s2, round) = s.script_client_read(id, stream, now);
    assert(s2.ports[sr] == s.ports[sr]);
    assert(s2.ports[rs] == s.ports[rs]);
    if data_of(items).len() > 0 {
        assert(round.tasks =~= seq![
            TaskView::Write {
                to: rs,
                data: data_of(items),
                oob: false,
                on_fail: OnFail::Stop(rs),
            },
        ]);
    }
}

proof fn lemma_breaks_without_keys(
    items: Seq<Item>,
    on_break: Option<BreakView>,
    k1: Option<BreakView>,
    k2: Option<BreakView>,
)
    requires
        forall|i: int| 0 <= i < items.len() ==> is_item(#[trigger] items[i], false),
    ensures
        breaks_of(items, on_break, k1) == breaks_of(items, on_break, k2),
    decreases items.len(),
{
    if items.len() > 0 {
        let rest = items.drop_last();
        assert forall|k: int| 0 <= k < rest.len() implies is_item(#[trigger] rest[k], false) by {
            assert(rest[k] == items[k]);
        }
        assert(is_item(items[items.len() - 1], false));
        lemma_breaks_without_keys(rest, on_break, k1, k2);
    }
}

/// What breaks mean: on a client of a debugger port the break command and the interrupt key
/// both send the configured sequence to the remote end of that port; on another script client
/// the break command sends a Telnet break there and the key is data; on any other connection
/// the break command sends a Telnet break to the peer and the key is data. Without a port to
/// send it to, a break is dropped.
pub proof fn lemma_what_breaks_mean(s: ProxyView, id: PortId)
    ensures
        s.ports[id].cls == PortClass::ScriptClient ==> match s.ports[id].script_ref {
            Some(sr) => {
                let sp = s.ports[sr];
                let rules = s.iac_rules(id);
                &&& rules.catches_ctrl_c == sp.break_port
                &&& sp.rscript is None ==> rules.on_break is None && rules.on_ctrl_c is None
                &&& sp.rscript matches Some(rs) ==> {
                    &&& sp.break_port ==> rules.on_break == Some(
                        BreakView { to: rs, bytes: s.settings.break_str },
                    ) && rules.on_ctrl_c == Some(
                        BreakView { to: rs, bytes: s.settings.break_str },
                    )
                    &&& !sp.break_port ==> rules.on_break == Some(
                        BreakView { to: rs, bytes: seq![0xffu8, 0xf3u8] },
                    )
                }
            },
            None => s.iac_rules(id).on_break is None && !s.iac_rules(id).catches_ctrl_c,
        },
        s.ports[id].cls != PortClass::ScriptClient ==> {
            let rules = s.iac_rules(id);
            &&& !rules.catches_ctrl_c
            &&& s.ports[id].peer matches Some(peer) ==> rules.on_break == Some(
                BreakView { to: peer, bytes: seq![0xffu8, 0xf3u8] },
            )
            &&& s.ports[id].peer is None ==> rules.on_break is None
        },
{
    assert(crate::telnet::telnet_break() =~= seq![0xffu8, 0xf3u8]);
}

/// On a serial line a Telnet break is a break condition on the port's descriptor and takes two
/// bytes of the sequence; every other byte there, and every byte on any other port, is written
/// as it is.
pub proof fn lemma_break_on_the_line(p: PortView, bytes: Seq<u8>, pos: int)
    requires
        0 <= pos < bytes.len(),
    ensures
        ({
            let is_break = p.port_type == PortType::Rs232 && pos + 1 < bytes.len() && bytes[pos]
                == 0xff && bytes[pos + 1] == 0xf3;
            &&& break_step(p, bytes, pos) == if is_break {
                BreakStep::SerialBreak(p.sock)
            } else {
                BreakStep::Write(bytes[pos])
            }
            &&& break_next(p, bytes, pos) == if is_break {
                pos + 2
            } else {
                pos + 1
            }
        }),
        break_step(p, bytes, bytes.len() as int) == BreakStep::Done,
{
}

/// The break sequence that is configured by default holds a break condition on a serial line
/// and then sends the SysRq key.
pub proof fn lemma_default_break_on_a_serial_line(p: PortView, key: u8)
    requires
        p.port_type == PortType::Rs232,
    ensures
        break_steps(p, seq![0xffu8, 0xf3u8, key], 0) == seq![
            BreakStep::SerialBreak(p.sock),
            BreakStep::Write(key),
        ],
{
    let bytes = seq![0xffu8, 0xf3u8, key];
    reveal_with_fuel(break_steps, 4);
    assert(break_steps(p, bytes, 3) =~= Seq::<BreakStep>::empty());
    assert(break_steps(p, bytes, 2) =~= seq![BreakStep::Write(key)]);
    assert(break_steps(p, bytes, 0) =~= seq![
        BreakStep::SerialBreak(p.sock),
        BreakStep::Write(key),
    ]);
}

proof fn lemma_after_adds(s: IacView, rules: IacRules, data: Seq<u8>)
    requires
        0 <= s.in_iac <= 2,
    ensures
        ({
            let fresh = IacView::start(s.in_iac).after(rules, data);
            &&& s.after(rules, data) == (IacView {
                in_iac: fresh.in_iac,
                out: s.out + fresh.out,
                breaks: s.breaks + fresh.breaks,
            })
            &&& 0 <= fresh.in_iac <= 2
        }),
    decreases data.len(),
{
    if data.len() == 0 {
        assert(s.out + Seq::<u8>::empty() =~= s.out);
        assert(s.breaks + Seq::<BreakView>::empty() =~= s.breaks);
    } else {
        let rest = data.drop_last();
        lemma_after_adds(s, rules, rest);
        let fresh = IacView::start(s.in_iac).after(rules, rest);
        let b = data.last();
        assert((s.out + fresh.out).push(b) =~= s.out + fresh.out.push(b));
        if let Some(brk) = rules.on_break {
            assert((s.breaks + fresh.breaks).push(brk) =~= s.breaks + fresh.breaks.push(brk));
        }
        if let Some(brk) = rules.on_ctrl_c {
            assert((s.breaks + fresh.breaks).push(brk) =~= s.breaks + fresh.breaks.push(brk));
        }
    }
}

/// A command may be cut anywhere between two reads: the data and the breaks of two reads, one
/// behind the other, are those of one read of all the bytes.
pub proof fn lemma_telnet_reads_join(s: ProxyView, id: PortId, a: Seq<u8>, b: Seq<u8>)
    requires
        s.has(id),
        s.ports[id].in_iac <= 2,
    ensures
        ({
            let t = s.after_iac(id, a);
            let whole = s.iac_result(id, a + b);
            let first = s.iac_result(id, a);
            let second = t.iac_result(id, b);
            &&& whole.out == first.out + second.out
            &&& whole.breaks == first.breaks + second.breaks
            &&& s.after_iac(id, a + b).ports[id].in_iac == t.after_iac(id, b).ports[id].in_iac
        }),
{
    let start = IacView::start(s.ports[id].in_iac as int);
    let rules = s.iac_rules(id);
    let t = s.after_iac(id, a);
    lemma_iac_chunks(start, rules, a, b);
    lemma_after_adds(start, rules, a);
    let first = start.after(rules, a);
    lemma_after_adds(first, rules, b);
    assert(t.ports[id].in_iac == first.in_iac);
    assert(t.iac_rules(id) == rules) by {
        if let Some(sr) = s.ports[id].script_ref {
            if sr == id {
                assert(t.ports[sr].rscript == s.ports[sr].rscript);
            }
        }
    }
}

/// With Telnet negotiation a serial line is read through the same layer: every client of the
/// device gets the data without the commands, in one write, and script clients get it too.
pub proof fn lemma_telnet_line_is_served(
    s: ProxyView,
    id: PortId,
    items: Seq<Item>,
    src: Option<SockAddr>,
    now: u64,
)
    requires
        s.has(id),
        s.ports[id].cls == PortClass::Remote,
        s.ports[id].port_type == PortType::Rs232,
        s.ports[id].in_iac == 0,
        s.ports[id].script_ref is None,
        s.settings.telnet_negotiation,
        forall|i: int| 0 <= i < items.len() ==> is_item(#[trigger] items[i], false),
        stream_of(items).len() > 0,
        data_of(items).len() > 0,
    ensures
        ({
            let round = s.remote_read(id, stream_of(items), src, now).1;
            let data = data_of(items);
            &&& round.tasks == s.ports[id].clients.map_values(
                |to: PortId| TaskView::Write { to, data, oob: false, on_fail: OnFail::Mark },
            ) + seq![TaskView::KillMarked { script: None }, TaskView::Script { from: id, data }]
            &&& !round.stop
        }),
{
    let stream = stream_of(items);
    let data = data_of(items);
    let s1 = s.read_from(id, stream.len() as int, src);
    let rules = s1.iac_rules(id);
    lemma_stream_is_taken_apart(IacView::start(0), rules, items);
    assert(Seq::<u8>::empty() + data =~= data);
    let (s2, round) = s.remote_read(id, stream, src, now);
    assert(s2.console_data(id, data) == data);
    assert(round.tasks =~= s.ports[id].clients.map_values(
        |to: PortId| TaskView::Write { to, data, oob: false, on_fail: OnFail::Mark },
    ) + seq![TaskView::KillMarked { script: None }, TaskView::Script { from: id, data }]);
}

/// The Telnet layer changes nothing of a port but its place in a command.
pub proof fn lemma_telnet_keeps_the_port(s: ProxyView, id: PortId, data: Seq<u8>)
    ensures
        s.after_iac(id, data) == (ProxyView {
            ports: s.ports.insert(
                id,
                PortView { in_iac: s.after_iac(id, data).ports[id].in_iac, ..s.ports[id] },
            ),
            ..s
        }),
{
}

/// The Telnet layer is a layer: what it leaves of the data is served as if it had been received
/// without it, behind the breaks; where it leaves nothing, nothing is written.
pub proof fn lemma_telnet_is_a_layer(
    s: ProxyView,
    id: PortId,
    data: Seq<u8>,
    src: Option<SockAddr>,
    now: u64,
)
    requires
        s.has(id),
        s.settings.telnet_negotiation,
        data.len() > 0,
    ensures
        ({
            let (t, round) = s.remote_read(id, data, src, now);
            let left = s.iac_result(id, data).out;
            let raw = ProxyView {
                settings: SettingsView { telnet_negotiation: false, ..s.settings },
                ..s
            };
            &&& round.breaks == s.iac_result(id, data).breaks
            &&& !round.stop && round.marked.len() == 0
            &&& left.len() == 0 ==> round.tasks.len() == 0
            &&& left.len() > 0 ==> round.tasks == raw.remote_read(id, left, src, now).1.tasks
            &&& t.ports[id].in_iac == s.after_iac(id, data).ports[id].in_iac
            &&& t.ports[id].rx_bytes == s.read_from(id, data.len() as int, src).ports[id].rx_bytes
        }),
{
    let s1 = s.read_from(id, data.len() as int, src);
    lemma_same_rules(s, s1, id);
    let left = s.iac_result(id, data).out;
    let (t, round) = s.remote_read(id, data, src, now);
    let raw = ProxyView {
        settings: SettingsView { telnet_negotiation: false, ..s.settings },
        ..s
    };
    if left.len() > 0 {
        let u = raw.remote_read(id, left, src, now).0;
        assert forall|x: PortId| t.is_open(x) == u.is_open(x) by {
        }
        assert(t.splits(id) == u.splits(id));
        assert(t.delivery(id, left) =~= u.delivery(id, left));
    }
}

proof fn lemma_same_rules(s: ProxyView, t: ProxyView, id: PortId)
    requires
        s.settings == t.settings,
        forall|x: PortId|
            (#[trigger] t.ports[x]).rscript == s.ports[x].rscript && t.ports[x].break_port
                == s.ports[x].break_port,
        t.ports[id].cls == s.ports[id].cls,
        t.ports[id].script_ref == s.ports[id].script_ref,
        t.ports[id].peer == s.ports[id].peer,
    ensures
        t.iac_rules(id) == s.iac_rules(id),
{
}

/// The same holds of a script client: what the layer leaves is served as that of a raw client.
pub proof fn lemma_telnet_is_a_layer_for_scripts(
    s: ProxyView,
    id: PortId,
    sr: PortId,
    data: Seq<u8>,
    now: u64,
)
    requires
        s.has(id),
        s.ports[id].mode == 0,
        s.ports[id].script_ref == Some(sr),
        id != sr,
        s.ports[sr].rscript != Some(id),
        s.ports[sr].lscript != Some(id),
        data.len() > 0,
    ensures
        ({
            let round = s.script_client_read(id, data, now).1;
            let left = s.iac_result(id, data).out;
            let raw = s.with_port(id, PortView { mode: 0x10, ..s.ports[id] });
            &&& round.breaks == s.iac_result(id, data).breaks
            &&& !round.stop && round.marked.len() == 0
            &&& left.len() == 0 ==> round.tasks.len() == 0
            &&& left.len() > 0 ==> round.tasks == raw.script_client_read(id, left, now).1.tasks
        }),
{
    assert(0u32 & 0x10u32 == 0) by (bit_vector);
    assert(0x10u32 & 0x10u32 != 0) by (bit_vector);
    let s1 = s.read_from(id, data.len() as int, None);
    lemma_same_rules(s, s1, id);
    let left = s.iac_result(id, data).out;
    let (t, round) = s.script_client_read(id, data, now);
    let raw = s.with_port(id, PortView { mode: 0x10, ..s.ports[id] });
    if left.len() > 0 {
        let u = raw.script_client_read(id, left, now).0;
        assert(t.ports[sr] == s.ports[sr] && u.ports[sr] == s.ports[sr]);
        let (rs, ls) = (s.ports[sr].rscript, s.ports[sr].lscript);
        assert(t.takes_script(rs) == u.takes_script(rs));
        assert(t.takes_script(ls) == u.takes_script(ls));
        assert(t.script_delivery(id, left) =~= u.script_delivery(id, left));
    }
}

} // verus!
