//! Finding GDB remote-protocol packets in the stream of a shared serial line.
use vstd::multiset::Multiset;
use vstd::prelude::*;
use crate::bytes::{append_from, copy_of};

verus! {

/// The most bytes that are held back while a packet is incomplete.
pub const MAX_GDB_BUF: usize = 8192;

/// The acknowledgement byte.
pub const PLUS: u8 = 0x2b;

/// The byte that asks for retransmission.
pub const MINUS: u8 = 0x2d;

/// The byte that opens a packet.
pub const DOLLAR: u8 = 0x24;

/// The byte between the body of a packet and its checksum.
pub const HASH: u8 = 0x23;

/// What is known of the packet under way: the bytes for the debugger so far and how far the
/// packet has come (0 outside a packet, 1 in the body, 2 and 3 in the checksum).
pub struct GdbSplitter {
    pub packet: Vec<u8>,
    /// The bytes of `packet` that the console did not get.
    pub held: Vec<u8>,
    pub got_dollar: u32,
}

/// The abstract value of a [`GdbSplitter`].
#[verifier::ext_equal]
pub struct GdbView {
    pub packet: Seq<u8>,
    pub held: Seq<u8>,
    pub got_dollar: u32,
}

impl View for GdbSplitter {
    type V = GdbView;

    open spec fn view(&self) -> GdbView {
        GdbView { packet: self.packet@, held: self.held@, got_dollar: self.got_dollar }
    }
}

impl GdbView {
    /// The bytes for the debugger fit the buffer, those that the console did not get are among
    /// them, and the packet is not complete.
    pub open spec fn wf(self) -> bool {
        &&& self.packet.len() <= MAX_GDB_BUF
        &&& self.held.to_multiset().subset_of(self.packet.to_multiset())
        &&& self.got_dollar <= 3
    }

    /// With the byte `b` of a packet, which is then at `got_dollar`.
    pub open spec fn hold(self, b: u8, got_dollar: u32) -> GdbView {
        GdbView { packet: self.packet.push(b), held: self.held.push(b), got_dollar }
    }

    /// The splitter after one more byte of the line.
    ///
    /// A full buffer is dropped. Acknowledgements are always for the debugger; other bytes
    /// only from a dollar sign to the second checksum digit, and these are held back.
    pub open spec fn after_byte(self, b: u8) -> GdbView {
        if self.packet.len() >= MAX_GDB_BUF {
            GdbView::idle()
        } else if b == DOLLAR {
            self.hold(b, 1)
        } else if self.got_dollar == 0 {
            if b == PLUS || b == MINUS {
                GdbView { packet: self.packet.push(b), ..self }
            } else {
                self
            }
        } else if b == PLUS || b == MINUS {
            self.hold(b, self.got_dollar)
        } else if self.got_dollar == 1 {
            self.hold(
                b,
                if b == HASH {
                    2
                } else {
                    1
                },
            )
        } else {
            self.hold(
                b,
                if self.got_dollar == 2 {
                    3
                } else {
                    0
                },
            )
        }
    }

    /// The splitter after what it has for the debugger was passed on.
    pub open spec fn emptied(self) -> GdbView {
        GdbView { packet: Seq::empty(), held: Seq::empty(), ..self }
    }

    /// The byte `b` completes something to pass on: an acknowledgement outside a packet,
    /// or the second checksum digit of a packet.
    pub open spec fn completes(self, b: u8) -> bool {
        &&& self.packet.len() < MAX_GDB_BUF
        &&& if b == PLUS || b == MINUS {
            self.got_dollar == 0
        } else {
            b != DOLLAR && self.got_dollar >= 3
        }
    }

    /// The byte `b` is part of a packet, from the dollar sign to the second checksum digit.
    pub open spec fn takes(self, b: u8) -> bool {
        self.packet.len() < MAX_GDB_BUF && (b == DOLLAR || self.got_dollar > 0)
    }

    /// The splitter after the bytes of `data`.
    pub open spec fn after(self, data: Seq<u8>) -> GdbView
        decreases data.len(),
    {
        if data.len() == 0 {
            self
        } else {
            self.after(data.drop_last()).after_byte(data.last())
        }
    }

    /// Some byte of `data` completes something to pass on.
    pub open spec fn transmits(self, data: Seq<u8>) -> bool
        decreases data.len(),
    {
        if data.len() == 0 {
            false
        } else {
            self.transmits(data.drop_last()) || self.after(data.drop_last()).completes(data.last())
        }
    }

    /// What the console gets with the byte `b`: the byte, unless it is held back as part of a
    /// packet. Where the buffer is dropped, the console gets what was held back before it.
    pub open spec fn console_gets(self, b: u8) -> Seq<u8> {
        if self.packet.len() >= MAX_GDB_BUF {
            self.held.push(b)
        } else if self.takes(b) {
            Seq::empty()
        } else {
            seq![b]
        }
    }

    /// The splitter outside any packet and with nothing held back.
    pub open spec fn idle() -> GdbView {
        GdbView { packet: Seq::empty(), held: Seq::empty(), got_dollar: 0 }
    }
}

/// What the console gets with `data`: all but the bytes that are held back as part of a
/// packet, and what was held back and turned out to be none. The splitter is at `s` when the
/// data begins.
pub open spec fn console_part(s: GdbView, data: Seq<u8>) -> Seq<u8>
    decreases data.len(),
{
    if data.len() == 0 {
        data
    } else {
        console_part(s, data.drop_last()) + s.after(data.drop_last()).console_gets(data.last())
    }
}

proof fn lemma_after_byte_wf(s: GdbView, b: u8)
    requires
        s.wf(),
    ensures
        s.after_byte(b).wf(),
{
    broadcast use vstd::seq_lib::group_to_multiset_ensures;
    broadcast use vstd::multiset::group_multiset_axioms;

}

impl GdbSplitter {
    /// A splitter outside any packet and with nothing held back.
    pub fn new() -> (s: GdbSplitter)
        ensures
            s@ == GdbView::idle(),
    {
        GdbSplitter { packet: Vec::new(), held: Vec::new(), got_dollar: 0 }
    }

    /// Takes one byte of the line; the result says whether it completes something.
    pub fn feed_byte(&mut self, b: u8) -> (xmit: bool)
        requires
            old(self)@.wf(),
        ensures
            final(self)@.wf(),
            final(self)@ == old(self)@.after_byte(b),
            xmit == old(self)@.completes(b),
    {
        proof {
            lemma_after_byte_wf(self@, b);
        }
        if self.packet.len() >= MAX_GDB_BUF {
            self.packet.clear();
            self.held.clear();
            self.got_dollar = 0;
            return false;
        }
        let ack = b == PLUS || b == MINUS;
        if b == DOLLAR || self.got_dollar > 0 {
            self.held.push(b);
        } else if !ack {
            return false;
        }
        self.packet.push(b);
        if ack {
            self.got_dollar == 0
        } else if b == DOLLAR {
            self.got_dollar = 1;
            false
        } else {
            if self.got_dollar > 1 {
                self.got_dollar = self.got_dollar + 1;
            }
            if b == HASH && self.got_dollar <= 1 {
                self.got_dollar = self.got_dollar + 1;
            }
            if self.got_dollar >= 4 {
                self.got_dollar = 0;
                true
            } else {
                false
            }
        }
    }

    /// Takes that what there is for the debugger was passed on.
    pub fn empty(&mut self)
        requires
            old(self)@.wf(),
        ensures
            final(self)@.wf(),
            final(self)@ == old(self)@.emptied(),
    {
        self.packet = Vec::new();
        self.held = Vec::new();
        assert(self@ =~= old(self)@.emptied());
    }

    /// Takes the bytes of `data`; the result says whether there is something to pass on.
    pub fn feed(&mut self, data: &Vec<u8>) -> (xmit: bool)
        requires
            old(self)@.wf(),
        ensures
            final(self)@.wf(),
            final(self)@ == old(self)@.after(data@),
            xmit == old(self)@.transmits(data@),
    {
        let ghost start = self@;
        let mut xmit = false;
        let mut i: usize = 0;
        while i < data.len()
            invariant
                i <= data@.len(),
                self@.wf(),
                self@ == start.after(data@.take(i as int)),
                xmit == start.transmits(data@.take(i as int)),
            decreases data@.len() - i,
        {
            proof {
                assert(data@.take(i + 1).drop_last() =~= data@.take(i as int));
            }
            if self.feed_byte(data[i]) {
                xmit = true;
            }
            i = i + 1;
        }
        proof {
            assert(data@.take(data@.len() as int) =~= data@);
        }
        xmit
    }

    /// What the console gets with `data`, which comes next on the line: all but the bytes that
    /// are held back as part of a packet, and what was held back and turned out to be none.
    pub fn console_part(&self, data: &Vec<u8>) -> (r: Vec<u8>)
        requires
            self@.wf(),
        ensures
            r@ == console_part(self@, data@),
    {
        let mut ahead = GdbSplitter {
            packet: copy_of(&self.packet),
            held: copy_of(&self.held),
            got_dollar: self.got_dollar,
        };
        let mut r: Vec<u8> = Vec::new();
        let mut i: usize = 0;
        proof {
            assert(data@.take(0) =~= Seq::<u8>::empty());
        }
        while i < data.len()
            invariant
                i <= data@.len(),
                ahead@.wf(),
                ahead@ == self@.after(data@.take(i as int)),
                r@ == console_part(self@, data@.take(i as int)),
            decreases data@.len() - i,
        {
            proof {
                assert(data@.take(i + 1).drop_last() =~= data@.take(i as int));
            }
            let b = data[i];
            let ghost before = r@;
            if ahead.packet.len() >= MAX_GDB_BUF {
                append_from(&mut r, &ahead.held, 0);
                r.push(b);
                assert(r@ =~= before + ahead@.held.push(b));
            } else if b != DOLLAR && ahead.got_dollar == 0 {
                r.push(b);
                assert(r@ =~= before + seq![b]);
            } else {
                assert(r@ =~= before + Seq::<u8>::empty());
            }
            let _ = ahead.feed_byte(b);
            i = i + 1;
        }
        proof {
            assert(data@.take(data@.len() as int) =~= data@);
        }
        r
    }
}

/// How the line is cut into reads does not matter: two reads leave the splitter as one
/// read of their bytes together would, and one of them has something to pass on exactly
/// where the whole has.
pub proof fn lemma_chunks(s: GdbView, a: Seq<u8>, b: Seq<u8>)
    ensures
        s.after(a + b) == s.after(a).after(b),
        s.transmits(a + b) == (s.transmits(a) || s.after(a).transmits(b)),
    decreases b.len(),
{
    if b.len() == 0 {
        assert(a + b =~= a);
    } else {
        lemma_chunks(s, a, b.drop_last());
        assert((a + b).drop_last() =~= a + b.drop_last());
        assert((a + b).last() == b.last());
    }
}

/// Feeding keeps the splitter well-formed.
pub proof fn lemma_after_wf(s: GdbView, data: Seq<u8>)
    requires
        s.wf(),
    ensures
        s.after(data).wf(),
    decreases data.len(),
{
    if data.len() > 0 {
        lemma_after_wf(s, data.drop_last());
        lemma_after_byte_wf(s.after(data.drop_last()), data.last());
    }
}

/// Console output never reaches the debugger: outside a packet, text without dollar, plus
/// and minus signs changes nothing and passes nothing on.
pub proof fn lemma_console_text_is_ignored(s: GdbView, text: Seq<u8>)
    requires
        s.got_dollar == 0,
        s.packet.len() < MAX_GDB_BUF,
        forall|i: int| 0 <= i < text.len() ==> text[i] != PLUS && text[i] != MINUS && text[i] != DOLLAR,
    ensures
        s.after(text) == s,
        !s.transmits(text),
    decreases text.len(),
{
    if text.len() > 0 {
        lemma_console_text_is_ignored(s, text.drop_last());
    }
}

/// The bytes of a packet: a dollar sign, the body, a hash sign and two checksum digits.
pub open spec fn packet_bytes(body: Seq<u8>, c1: u8, c2: u8) -> Seq<u8> {
    seq![DOLLAR] + body + seq![HASH, c1, c2]
}

proof fn lemma_body(s: GdbView, body: Seq<u8>)
    requires
        s.got_dollar == 1,
        s.packet.len() + body.len() <= MAX_GDB_BUF,
        forall|i: int| 0 <= i < body.len() ==> body[i] != DOLLAR && body[i] != HASH,
    ensures
        s.after(body) == (GdbView {
            packet: s.packet + body,
            held: s.held + body,
            got_dollar: 1,
        }),
        !s.transmits(body),
    decreases body.len(),
{
    if body.len() == 0 {
        assert(s.packet + body =~= s.packet);
        assert(s.held + body =~= s.held);
    } else {
        lemma_body(s, body.drop_last());
        assert((s.packet + body.drop_last()).push(body.last()) =~= s.packet + body);
        assert((s.held + body.drop_last()).push(body.last()) =~= s.held + body);
    }
}

/// A packet that the buffer has room for is recognised: it is held whole, behind what was
/// held before, and its last byte, not one before it, passes it on.
pub proof fn lemma_packet_is_recognised(s: GdbView, body: Seq<u8>, c1: u8, c2: u8)
    requires
        s.got_dollar == 0,
        s.packet.len() + body.len() + 4 <= MAX_GDB_BUF,
        forall|i: int| 0 <= i < body.len() ==> body[i] != DOLLAR && body[i] != HASH,
        c1 != DOLLAR && c1 != PLUS && c1 != MINUS,
        c2 != DOLLAR && c2 != PLUS && c2 != MINUS,
    ensures
        s.after(packet_bytes(body, c1, c2)) == (GdbView {
            packet: s.packet + packet_bytes(body, c1, c2),
            held: s.held + packet_bytes(body, c1, c2),
            got_dollar: 0,
        }),
        s.transmits(packet_bytes(body, c1, c2)),
        !s.transmits(packet_bytes(body, c1, c2).drop_last()),
{
    let start = seq![DOLLAR];
    let s1 = s.hold(DOLLAR, 1);
    let none = Seq::<u8>::empty();
    assert(start.drop_last() =~= none);
    assert(s.after(none) == s && !s.transmits(none));
    assert(s.after(start) == s1);
    assert(!s.transmits(start));
    lemma_body(s1, body);
    lemma_chunks(s, start, body);
    let opened = start + body;
    let s2 = s.after(opened);
    assert(s2.packet =~= s.packet + opened);
    assert(s2.held =~= s.held + opened);
    let p2 = opened.push(HASH);
    let p3 = p2.push(c1);
    let p4 = p3.push(c2);
    assert(p2.drop_last() =~= opened);
    assert(p3.drop_last() =~= p2);
    assert(p4.drop_last() =~= p3);
    assert(p4 =~= packet_bytes(body, c1, c2));
    assert(s.after(p2).got_dollar == 2 && !s.transmits(p2));
    assert(s.after(p3).got_dollar == 3 && !s.transmits(p3));
    assert(s.after(p4).packet =~= s.packet + p4);
    assert(s.after(p4).held =~= s.held + p4);
}

proof fn lemma_prefix_is_silent(s: GdbView, data: Seq<u8>, cut: int)
    requires
        0 <= cut <= data.len(),
        !s.transmits(data),
    ensures
        !s.transmits(data.take(cut)),
{
    lemma_chunks(s, data.take(cut), data.skip(cut));
    assert(data.take(cut) + data.skip(cut) =~= data);
}

/// A packet that arrives in two reads is passed on whole by the second one.
pub proof fn lemma_fragmented_packet(s: GdbView, body: Seq<u8>, c1: u8, c2: u8, cut: int)
    requires
        s.got_dollar == 0,
        s.packet.len() + body.len() + 4 <= MAX_GDB_BUF,
        forall|i: int| 0 <= i < body.len() ==> body[i] != DOLLAR && body[i] != HASH,
        c1 != DOLLAR && c1 != PLUS && c1 != MINUS,
        c2 != DOLLAR && c2 != PLUS && c2 != MINUS,
        0 <= cut < packet_bytes(body, c1, c2).len(),
    ensures
        ({
            let whole = packet_bytes(body, c1, c2);
            let first = s.after(whole.take(cut));
            &&& !s.transmits(whole.take(cut))
            &&& first.transmits(whole.skip(cut))
            &&& first.after(whole.skip(cut)) == (GdbView {
                packet: s.packet + whole,
                held: s.held + whole,
                got_dollar: 0,
            })
        }),
{
    let whole = packet_bytes(body, c1, c2);
    lemma_packet_is_recognised(s, body, c1, c2);
    lemma_prefix_is_silent(s, whole.drop_last(), cut);
    assert(whole.drop_last().take(cut) =~= whole.take(cut));
    lemma_chunks(s, whole.take(cut), whole.skip(cut));
    assert(whole.take(cut) + whole.skip(cut) =~= whole);
}

/// How the line is cut into reads does not matter to the console either.
pub proof fn lemma_console_chunks(s: GdbView, a: Seq<u8>, b: Seq<u8>)
    ensures
        console_part(s, a + b) == console_part(s, a) + console_part(s.after(a), b),
    decreases b.len(),
{
    if b.len() == 0 {
        assert(a + b =~= a);
        assert(console_part(s, a) + console_part(s.after(a), b) =~= console_part(s, a));
    } else {
        let rest = b.drop_last();
        lemma_console_chunks(s, a, rest);
        lemma_chunks(s, a, rest);
        assert((a + b).drop_last() =~= a + rest);
        assert((a + b).last() == b.last());
        assert(console_part(s, a + b) =~= console_part(s, a) + console_part(s.after(a), b));
    }
}

/// Text is for the console: outside a packet, text without dollar signs is kept whole, and
/// nothing else comes with it unless the buffer is dropped while something is held back.
pub proof fn lemma_console_keeps_text(s: GdbView, text: Seq<u8>)
    requires
        s.got_dollar == 0,
        s.held.len() == 0 || s.packet.len() + text.len() <= MAX_GDB_BUF,
        forall|i: int| 0 <= i < text.len() ==> text[i] != DOLLAR,
    ensures
        console_part(s, text) == text,
        s.after(text).got_dollar == 0,
        s.held.len() == 0 ==> s.after(text).held.len() == 0,
    decreases text.len(),
{
    if text.len() > 0 {
        let rest = text.drop_last();
        lemma_console_keeps_text(s, rest);
        lemma_held_len(s, rest);
        let at = s.after(rest);
        if at.packet.len() >= MAX_GDB_BUF {
            assert(at.held.push(text.last()) =~= seq![text.last()]);
        }
        assert(text =~= rest + seq![text.last()]);
    }
}

proof fn lemma_inside_is_taken(s: GdbView, data: Seq<u8>)
    requires
        s.packet.len() + data.len() <= MAX_GDB_BUF,
        forall|k: int|
            0 <= k < data.len() ==> #[trigger] data[k] == DOLLAR || s.after(data.take(k)).got_dollar
                > 0,
    ensures
        console_part(s, data).len() == 0,
        s.after(data).packet.len() <= s.packet.len() + data.len(),
    decreases data.len(),
{
    if data.len() > 0 {
        let rest = data.drop_last();
        assert forall|k: int| 0 <= k < rest.len() implies #[trigger] rest[k] == DOLLAR || s.after(
            rest.take(k),
        ).got_dollar > 0 by {
            assert(rest[k] == data[k]);
            assert(rest.take(k) =~= data.take(k));
        }
        lemma_inside_is_taken(s, rest);
        assert(data[data.len() - 1] == data.last());
        assert(data.take(data.len() - 1) =~= rest);
    }
}

/// A packet is not for the console: of a packet that the buffer has room for nothing is left
/// there, and of text in front of it everything.
pub proof fn lemma_console_loses_packets(
    s: GdbView,
    text: Seq<u8>,
    body: Seq<u8>,
    c1: u8,
    c2: u8,
)
    requires
        s.got_dollar == 0,
        s.packet.len() + text.len() + body.len() + 4 <= MAX_GDB_BUF,
        forall|i: int| 0 <= i < text.len() ==> text[i] != DOLLAR,
        forall|i: int| 0 <= i < body.len() ==> body[i] != DOLLAR && body[i] != HASH,
        c1 != DOLLAR && c1 != PLUS && c1 != MINUS,
        c2 != DOLLAR && c2 != PLUS && c2 != MINUS,
    ensures
        console_part(s, text + packet_bytes(body, c1, c2)) == text,
{
    let whole = packet_bytes(body, c1, c2);
    lemma_console_keeps_text(s, text);
    lemma_held_len(s, text);
    let s1 = s.after(text);
    let open = seq![DOLLAR];
    let g1 = s1.hold(DOLLAR, 1);
    assert(open.drop_last() =~= Seq::<u8>::empty());
    assert(s1.after(Seq::<u8>::empty()) == s1);
    assert(s1.after(open) == g1);
    assert forall|k: int| 0 <= k < whole.len() implies #[trigger] whole[k] == DOLLAR || s1.after(
        whole.take(k),
    ).got_dollar > 0 by {
        if 0 < k <= body.len() + 1 {
            let seen = body.take(k - 1);
            lemma_body(g1, seen);
            lemma_chunks(s1, open, seen);
            assert(whole.take(k) =~= open + seen);
        } else if k > body.len() + 1 {
            lemma_body(g1, body);
            lemma_chunks(s1, open, body);
            let opened = open + body;
            assert(whole.take(body.len() as int + 2) =~= opened.push(HASH));
            assert(opened.push(HASH).drop_last() =~= opened);
            assert(s1.after(opened.push(HASH)).got_dollar == 2);
            if k == body.len() + 3 {
                let p = opened.push(HASH).push(c1);
                assert(whole.take(k) =~= p);
                assert(p.drop_last() =~= opened.push(HASH));
            }
        }
    }
    lemma_inside_is_taken(s1, whole);
    lemma_console_chunks(s, text, whole);
    assert(text + console_part(s1, whole) =~= text);
}

proof fn lemma_held_len(s: GdbView, data: Seq<u8>)
    ensures
        s.after(data).packet.len() <= s.packet.len() + data.len(),
    decreases data.len(),
{
    if data.len() > 0 {
        lemma_held_len(s, data.drop_last());
    }
}

/// What is kept from the console is held for the debugger.
pub proof fn lemma_taken_byte_is_held(s: GdbView, b: u8)
    requires
        s.takes(b),
    ensures
        s.after_byte(b).packet == s.packet.push(b),
        s.after_byte(b).held == s.held.push(b),
        s.console_gets(b).len() == 0,
{
}

/// Each byte has one place: what was held back and what came in on the line are what the
/// console gets and what is held back then.
pub proof fn lemma_console_or_held(s: GdbView, data: Seq<u8>)
    ensures
        s.held.to_multiset().add(data.to_multiset()) == console_part(
            s,
            data,
        ).to_multiset().add(s.after(data).held.to_multiset()),
    decreases data.len(),
{
    broadcast use vstd::seq_lib::group_to_multiset_ensures;
    broadcast use vstd::multiset::group_multiset_axioms;

    let l = s.held.to_multiset().add(data.to_multiset());
    let r = console_part(s, data).to_multiset().add(s.after(data).held.to_multiset());
    if data.len() == 0 {
        assert(l =~= r);
    } else {
        let rest = data.drop_last();
        let b = data.last();
        let at = s.after(rest);
        lemma_console_or_held(s, rest);
        let part = console_part(s, rest);
        let more = at.console_gets(b);
        assert(data =~= rest.push(b));
        vstd::seq_lib::lemma_multiset_commutative(part, more);
        let then = s.after(data).held;
        assert(at.held.to_multiset().insert(b) =~= more.to_multiset().add(then.to_multiset())) by {
            if at.packet.len() >= MAX_GDB_BUF {
                assert(more == at.held.push(b));
                assert(then.to_multiset() =~= Multiset::<u8>::empty());
            } else if at.takes(b) {
                assert(then == at.held.push(b));
                assert(more.to_multiset() =~= Multiset::<u8>::empty());
            } else {
                assert(then == at.held);
                assert(more =~= Seq::<u8>::empty().push(b));
            }
        }
        assert(l =~= s.held.to_multiset().add(rest.to_multiset()).insert(b));
        assert(r =~= part.to_multiset().add(more.to_multiset().add(then.to_multiset())));
        assert(l =~= part.to_multiset().add(at.held.to_multiset()).insert(b));
        assert(l =~= r);
    }
}

/// What is passed on to the debugger after the line sent `data`.
pub open spec fn passed_on(s: GdbView, data: Seq<u8>) -> Seq<u8> {
    if s.transmits(data) {
        s.after(data).packet
    } else {
        Seq::empty()
    }
}

/// The splitter after the line sent `data` and what there was to pass on was passed on.
pub open spec fn after_read(s: GdbView, data: Seq<u8>) -> GdbView {
    if s.transmits(data) {
        s.after(data).emptied()
    } else {
        s.after(data)
    }
}

/// What comes of a line that is read in several parts.
#[verifier::ext_equal]
pub struct LineView {
    /// The splitter behind the last part.
    pub at: GdbView,
    /// All that the line sent.
    pub line: Seq<u8>,
    /// All that the console got.
    pub console: Seq<u8>,
    /// All that was passed on to the debugger.
    pub debugger: Seq<u8>,
}

/// What comes of the line that is read as `reads`, for a splitter that is at `s` before.
pub open spec fn line_read(s: GdbView, reads: Seq<Seq<u8>>) -> LineView
    decreases reads.len(),
{
    if reads.len() == 0 {
        LineView { at: s, line: Seq::empty(), console: Seq::empty(), debugger: Seq::empty() }
    } else {
        let before = line_read(s, reads.drop_last());
        let data = reads.last();
        LineView {
            at: after_read(before.at, data),
            line: before.line + data,
            console: before.console + console_part(before.at, data),
            debugger: before.debugger + passed_on(before.at, data),
        }
    }
}

/// Nothing of the line is lost: over any reads, each byte that was held back or came in went
/// to the console, was passed on to the debugger, or is still held back for it.
pub proof fn lemma_nothing_is_lost(s: GdbView, reads: Seq<Seq<u8>>)
    requires
        s.wf(),
    ensures
        ({
            let r = line_read(s, reads);
            &&& r.at.wf()
            &&& s.held.to_multiset().add(r.line.to_multiset()).subset_of(
                r.console.to_multiset().add(r.debugger.to_multiset()).add(
                    r.at.held.to_multiset(),
                ),
            )
        }),
    decreases reads.len(),
{
    broadcast use vstd::seq_lib::group_to_multiset_ensures;
    broadcast use vstd::multiset::group_multiset_axioms;

    let r = line_read(s, reads);
    if reads.len() == 0 {
        assert(r.line.to_multiset() =~= Multiset::<u8>::empty());
    } else {
        let before = line_read(s, reads.drop_last());
        let data = reads.last();
        let after = before.at.after(data);
        lemma_nothing_is_lost(s, reads.drop_last());
        lemma_after_wf(before.at, data);
        lemma_console_or_held(before.at, data);
        let part = console_part(before.at, data);
        let passed = passed_on(before.at, data);
        vstd::seq_lib::lemma_multiset_commutative(before.line, data);
        vstd::seq_lib::lemma_multiset_commutative(before.console, part);
        vstd::seq_lib::lemma_multiset_commutative(before.debugger, passed);
        assert(after.held.to_multiset().subset_of(
            passed.to_multiset().add(r.at.held.to_multiset()),
        ));
        let l = s.held.to_multiset().add(r.line.to_multiset());
        let all = r.console.to_multiset().add(r.debugger.to_multiset()).add(
            r.at.held.to_multiset(),
        );
        assert forall|b: u8| l.count(b) <= #[trigger] all.count(b) by {
            let h0 = before.at.held.to_multiset();
            assert(s.held.to_multiset().add(before.line.to_multiset()).count(b)
                <= before.console.to_multiset().add(before.debugger.to_multiset()).add(h0).count(
                b,
            ));
            assert(h0.add(data.to_multiset()).count(b) == part.to_multiset().add(
                after.held.to_multiset(),
            ).count(b));
            assert(after.held.to_multiset().count(b) <= passed.to_multiset().add(
                r.at.held.to_multiset(),
            ).count(b));
        }
    }
}

} // verus!
