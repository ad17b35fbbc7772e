//! Laws of the status display: what its amounts, its rows and its box show.
use vstd::prelude::*;
use crate::amount::{as_double, bytes_text, rounded, spacing};
use crate::laws::line::lemma_present_is_filter;
use crate::number::decimal;
use crate::port::{PortId, PortView};
use crate::round::present;
use crate::state::ProxyView;
use crate::status::{
    bottom_line, box_lines, boxed_line, channel_rows, client_count, client_row,
    clients_status, in_escape, inner_width, joined_lines, plain_row, rewind, row_text, row_width,
    serial_row, top_line, totals, traffic, traffic_row, width, RowView,
};
use crate::text::{padded_left, padded_right, repeated};

verus! {

/// `t` tenths of a unit.
pub open spec fn tenths_text(t: nat, unit: Seq<char>) -> Seq<char> {
    decimal(t / 10) + seq!['.'] + decimal(t % 10) + unit
}

proof fn lemma_rounded_is_near(m: nat, d: nat)
    requires
        d > 0,
    ensures
        2 * (rounded(m, d) * d - m) <= d,
        2 * (m - rounded(m, d) * d) <= d,
        m % d == 0 ==> rounded(m, d) * d == m,
{
    let q = m / d;
    let r = m % d;
    vstd::arithmetic::div_mod::lemma_fundamental_div_mod(m as int, d as int);
    assert(q * d == d * q) by (nonlinear_arith);
    assert((q + 1) * d == q * d + d) by (nonlinear_arith);
}

proof fn lemma_small_is_exact(n: nat)
    requires
        n < 9007199254740992,
    ensures
        as_double(n) == n,
{
    assert(spacing(n) == 1);
    lemma_rounded_is_near(n, 1);
    assert(rounded(n, 1) * 1 == rounded(n, 1));
}

proof fn lemma_large_is_near(n: nat)
    requires
        n <= u64::MAX,
    ensures
        as_double(n) <= n + 1024,
        n <= as_double(n) + 1024,
{
    reveal_with_fuel(spacing, 13);
    let d = spacing(n);
    assert(1 <= d <= 2048);
    lemma_rounded_is_near(n, d);
}

/// Below a kibibyte the bytes are counted.
pub proof fn lemma_bytes_are_counted(n: u64)
    requires
        n < 1024,
    ensures
        bytes_text(n) == decimal(n as nat) + " B"@,
{
}

/// From a kibibyte on an amount is shown in the largest unit that it reaches, to the nearest
/// tenth of it: what is shown is off by at most half a tenth.
pub proof fn lemma_amounts_are_near(n: u64)
    ensures
        1024 <= n < 1048576 ==> exists|t: nat| #[trigger]
            tenths_text(t, " KiB"@) == bytes_text(n) && -512 <= t * 1024 - 10 * n <= 512,
        1048576 <= n < 1073741824 ==> exists|t: nat| #[trigger]
            tenths_text(t, " MiB"@) == bytes_text(n) && -524288 <= t * 1048576 - 10 * n <= 524288,
        1073741824 <= n < 9007199254740992 ==> exists|t: nat| #[trigger]
            tenths_text(t, " GiB"@) == bytes_text(n) && -536870912 <= t * 1073741824 - 10 * n
                <= 536870912,
        9007199254740992 <= n ==> exists|t: nat| #[trigger]
            tenths_text(t, " GiB"@) == bytes_text(n) && -536881152 <= t * 1073741824 - 10 * n
                <= 536881152,
{
    reveal_strlit(".");
    assert("."@ =~= seq!['.']);
    let m = as_double(n as nat) * 10;
    if n < 9007199254740992 {
        lemma_small_is_exact(n as nat);
    }
    lemma_large_is_near(n as nat);
    lemma_rounded_is_near(m, 1024);
    lemma_rounded_is_near(m, 1048576);
    lemma_rounded_is_near(m, 1073741824);
    if 1024 <= n < 1048576 {
        let t = rounded(m, 1024);
        assert(bytes_text(n) =~= tenths_text(t, " KiB"@));
    } else if 1048576 <= n < 1073741824 {
        let t = rounded(m, 1048576);
        assert(bytes_text(n) =~= tenths_text(t, " MiB"@));
    } else if 1073741824 <= n {
        let t = rounded(m, 1073741824);
        assert(bytes_text(n) =~= tenths_text(t, " GiB"@));
    }
}

/// Padding puts spaces in front of, or behind, text that is too short, and leaves other text
/// alone.
pub proof fn lemma_padding(s: Seq<char>, w: nat)
    ensures
        s.len() >= w ==> padded_left(s, w) == s && padded_right(s, w) == s,
        s.len() < w ==> {
            let n = (w - s.len()) as nat;
            &&& padded_left(s, w).len() == w && padded_right(s, w).len() == w
            &&& padded_left(s, w).skip(n as int) == s
            &&& padded_right(s, w).take(s.len() as int) == s
            &&& forall|i: int| 0 <= i < n ==> padded_left(s, w)[i] == ' '
            &&& forall|i: int| s.len() <= i < w ==> padded_right(s, w)[i] == ' '
        },
{
    if s.len() < w {
        assert(padded_left(s, w).skip((w - s.len()) as int) =~= s);
        assert(padded_right(s, w).take(s.len() as int) =~= s);
    }
}

/// Traffic shows what was received with an arrow down, and behind it what was sent with an
/// arrow up.
pub proof fn lemma_traffic_shows_both_ways(left: Seq<char>, rx: u64, tx: u64)
    ensures
        traffic(rx, tx) == padded_left(bytes_text(rx), 6) + "\x1b[34m"@ + "⇣"@ + "\x1b[0m"@ + " "@
            + padded_left(bytes_text(tx), 6) + "\x1b[33m"@ + "⇡"@ + "\x1b[0m"@,
        traffic_row(left, rx, tx) == (RowView { left, right: Some(traffic(rx, tx)) }),
        plain_row(left) == (RowView { left, right: None }),
{
}

/// The number of clients is shown, dimmed where there is none, and in the plural unless there
/// is one.
pub proof fn lemma_client_count_shows(n: nat)
    ensures
        n == 0 ==> client_count(n) == "\x1b[2m"@ + decimal(0) + " connected "@ + "clients"@
            + "\x1b[0m"@,
        n == 1 ==> client_count(n) == "\x1b[32m"@ + decimal(1) + " connected "@ + "client"@
            + "\x1b[0m"@,
        n > 1 ==> client_count(n) == "\x1b[32m"@ + decimal(n) + " connected "@ + "clients"@
            + "\x1b[0m"@,
{
}

/// The sum of `counts`.
pub open spec fn sum(counts: Seq<u64>) -> nat
    decreases counts.len(),
{
    if counts.len() == 0 {
        0
    } else {
        sum(counts.drop_last()) + counts.last() as nat
    }
}

/// `n`, or the largest count where that is smaller.
pub open spec fn capped(n: nat) -> u64 {
    if n <= u64::MAX {
        n as u64
    } else {
        u64::MAX
    }
}

proof fn lemma_present_grows(ports: Map<PortId, PortView>, ids: Seq<PortId>)
    requires
        ids.len() > 0,
    ensures
        ids.filter(|id: PortId| ports.dom().contains(id)) == if ports.dom().contains(ids.last()) {
            ids.drop_last().filter(|id: PortId| ports.dom().contains(id)).push(ids.last())
        } else {
            ids.drop_last().filter(|id: PortId| ports.dom().contains(id))
        },
{
    reveal(Seq::filter);
}

/// The traffic of several clients is the sum of what each received, and the sum of what each
/// sent, over those that are ports, up to the largest count.
pub proof fn lemma_totals_are_sums(ports: Map<PortId, PortView>, ids: Seq<PortId>)
    ensures
        ({
            let there = ids.filter(|id: PortId| ports.dom().contains(id));
            totals(ports, ids) == (
                capped(sum(there.map_values(|id: PortId| ports[id].rx_bytes))),
                capped(sum(there.map_values(|id: PortId| ports[id].tx_bytes))),
            )
        }),
    decreases ids.len(),
{
    let there = ids.filter(|id: PortId| ports.dom().contains(id));
    let rx = there.map_values(|id: PortId| ports[id].rx_bytes);
    let tx = there.map_values(|id: PortId| ports[id].tx_bytes);
    if ids.len() == 0 {
        reveal(Seq::filter);
        assert(rx.len() == 0 && tx.len() == 0);
    } else {
        let rest = ids.drop_last();
        lemma_totals_are_sums(ports, rest);
        lemma_present_grows(ports, ids);
        if ports.dom().contains(ids.last()) {
            let before = rest.filter(|id: PortId| ports.dom().contains(id));
            assert(rx.drop_last() =~= before.map_values(|id: PortId| ports[id].rx_bytes));
            assert(tx.drop_last() =~= before.map_values(|id: PortId| ports[id].tx_bytes));
        }
    }
}

/// The serial line is shown with the name its device has, its rate, its descriptor and its
/// traffic while it is open. A lost one is shown as disconnected, with its traffic, and a
/// missing one by the device that was configured.
pub proof fn lemma_serial_line_shows(device: Seq<char>, baud: Seq<char>, p: PortView)
    ensures
        p.sock >= 0 ==> serial_row(device, baud, Some(p)) == traffic_row(
            "\x1b[35m"@ + "⌁"@ + "\x1b[0m"@ + " "@ + "\x1b[1m"@ + "Serial"@ + "\x1b[0m"@ + "     "@
                + "\x1b[33m"@ + p.name + "\x1b[0m"@ + " @ "@ + baud + " baud  "@ + "\x1b[2m"@
                + "fd="@ + decimal(p.sock as nat) + "\x1b[0m"@,
            p.rx_bytes,
            p.tx_bytes,
        ),
        p.sock < 0 ==> serial_row(device, baud, Some(p)) == traffic_row(
            "\x1b[31m"@ + "✕"@ + "\x1b[0m"@ + " "@ + "\x1b[1m"@ + "Serial"@ + "\x1b[0m"@ + "     "@
                + "\x1b[31m"@ + p.name + "\x1b[0m"@ + " @ "@ + baud + " baud  "@ + "\x1b[31m"@
                + "disconnected"@ + "\x1b[0m"@,
            p.rx_bytes,
            p.tx_bytes,
        ),
        serial_row(device, baud, None) == plain_row(
            "\x1b[31m"@ + "✕"@ + "\x1b[0m"@ + " "@ + "\x1b[1m"@ + "Serial"@ + "\x1b[0m"@ + "     "@
                + "\x1b[31m"@ + device + "\x1b[0m"@ + " @ "@ + baud + " baud  "@ + "\x1b[31m"@
                + "disconnected"@ + "\x1b[0m"@,
        ),
{
}

/// A client is shown by its identifier and its descriptor, with its traffic.
pub proof fn lemma_client_shows(id: PortId, p: PortView)
    ensures
        client_row(id, p) == traffic_row(
            "    "@ + "\x1b[32m"@ + "◦"@ + "\x1b[0m"@ + " id="@ + padded_right(
                decimal(id as nat),
                3,
            ) + " fd="@ + padded_right(
                if p.sock < 0 {
                    seq!['-'] + decimal((-p.sock) as nat)
                } else {
                    decimal(p.sock as nat)
                },
                3,
            ),
            p.rx_bytes,
            p.tx_bytes,
        ),
{
}

/// A channel without clients is one row without traffic. One with clients shows the traffic of
/// all of them, and below it a head and one row for each that is a port, in their order.
pub proof fn lemma_channel_shows_its_clients(
    ports: Map<PortId, PortView>,
    text: Seq<char>,
    role: Seq<char>,
    ids: Seq<PortId>,
)
    ensures
        ids.len() == 0 ==> channel_rows(ports, text, role, ids) == seq![
            RowView { left: text, right: None },
        ],
        ids.len() > 0 ==> channel_rows(ports, text, role, ids) == seq![
            traffic_row(text, totals(ports, ids).0, totals(ports, ids).1),
            plain_row("  "@ + "\x1b[2m"@ + role + " clients"@ + "\x1b[0m"@),
        ] + ids.filter(|id: PortId| ports.dom().contains(id)).map_values(
            |id: PortId| client_row(id, ports[id]),
        ),
        clients_status(ports, role, Seq::empty()) == seq![
            plain_row("\x1b[2m"@ + role + " clients"@ + "\x1b[0m"@ + "  none"@),
        ],
{
    lemma_present_is_filter(ports, ids);
    if ids.len() > 0 {
        assert(channel_rows(ports, text, role, ids) =~= seq![
            traffic_row(text, totals(ports, ids).0, totals(ports, ids).1),
            plain_row("  "@ + "\x1b[2m"@ + role + " clients"@ + "\x1b[0m"@),
        ] + ids.filter(|id: PortId| ports.dom().contains(id)).map_values(
            |id: PortId| client_row(id, ports[id]),
        ));
    }
}

/// The clients of the console are those of the remote, and the clients of the debugger port
/// those of the script port of the local port. Each channel is shown with its own port and the
/// number of its clients: the mode first, then the serial line, the console and the debugger.
pub proof fn lemma_status_shows_both_channels(
    s: ProxyView,
    device: Seq<char>,
    baud: Seq<char>,
    console_port: u16,
    gdb_port: u16,
    sr: PortId,
)
    requires
        s.has(s.local_port_id),
        s.has(s.remote_port_id),
        s.ports[s.local_port_id].script_ref == Some(sr),
        s.has(sr),
    ensures
        ({
            let console = s.ports[s.remote_port_id].clients.filter(
                |id: PortId| s.ports.dom().contains(id),
            );
            let gdb = s.ports[sr].clients;
            s.status_rows(device, baud, console_port, gdb_port) == seq![
                plain_row(
                    "\x1b[32m"@ + "●"@ + "\x1b[0m"@ + " "@ + "\x1b[1m"@ + "Mode"@ + "\x1b[0m"@
                        + "       serial-split"@,
                ),
                serial_row(device, baud, Some(s.ports[s.remote_port_id])),
            ] + channel_rows(
                s.ports,
                "\x1b[34m"@ + "▣"@ + "\x1b[0m"@ + " "@ + "\x1b[1m"@ + "Console"@ + "\x1b[0m"@
                    + "    "@ + "tcp://localhost:"@ + decimal(console_port as nat) + "  "@
                    + client_count(console.len()),
                "console"@,
                console,
            ) + channel_rows(
                s.ports,
                "\x1b[33m"@ + "◆"@ + "\x1b[0m"@ + " "@ + "\x1b[1m"@ + "KGDB"@ + "\x1b[0m"@
                    + "       "@ + "tcp://localhost:"@ + decimal(gdb_port as nat) + "  "@
                    + client_count(gdb.len()),
                "kgdb"@,
                gdb,
            )
        }),
{
    lemma_present_is_filter(s.ports, s.ports[s.remote_port_id].clients);
}

/// Text without escape sequences is as wide as it is long, and an escape sequence behind text
/// does not make it wider.
pub proof fn lemma_width_counts_what_is_seen(s: Seq<char>, inside: Seq<char>, end: char)
    requires
        !in_escape(s),
        forall|i: int|
            0 <= i < inside.len() ==> !('a' <= #[trigger] inside[i] <= 'z') && !('A' <= inside[i]
                <= 'Z'),
        'a' <= end <= 'z' || 'A' <= end <= 'Z',
    ensures
        width(s + seq!['\x1b'] + inside + seq![end]) == width(s),
        !in_escape(s + seq!['\x1b'] + inside + seq![end]),
    decreases inside.len(),
{
    let start = s + seq!['\x1b'];
    assert(start.drop_last() =~= s);
    lemma_inside(start, inside);
    let all = start + inside + seq![end];
    assert(all.drop_last() =~= start + inside);
    assert(width(start) == width(s));
}

proof fn lemma_inside(start: Seq<char>, inside: Seq<char>)
    requires
        in_escape(start),
        forall|i: int|
            0 <= i < inside.len() ==> !('a' <= #[trigger] inside[i] <= 'z') && !('A' <= inside[i]
                <= 'Z'),
    ensures
        in_escape(start + inside),
        width(start + inside) == width(start),
    decreases inside.len(),
{
    if inside.len() == 0 {
        assert(start + inside =~= start);
    } else {
        let rest = inside.drop_last();
        lemma_inside(start, rest);
        assert((start + inside).drop_last() =~= start + rest);
        assert((start + inside).last() == inside[inside.len() - 1]);
    }
}

/// A character that begins no escape sequence makes text wider by one.
pub proof fn lemma_seen_characters_count(s: Seq<char>, c: char)
    requires
        !in_escape(s),
        c != '\x1b',
    ensures
        width(s.push(c)) == width(s) + 1,
        !in_escape(s.push(c)),
        width(Seq::<char>::empty()) == 0,
        !in_escape(Seq::<char>::empty()),
{
    assert(s.push(c).drop_last() =~= s);
}

/// A row needs its text, and with a right column that column and a gap of two. What is left of
/// the width stands between the two.
pub proof fn lemma_what_a_row_needs(left: Seq<char>, right: Seq<char>, inner: nat)
    ensures
        row_width(RowView { left, right: None }) == width(left),
        row_width(RowView { left, right: Some(right) }) == width(left) + 2 + width(right),
        row_text(RowView { left, right: None }, inner) == left,
        width(left) + width(right) <= inner ==> row_text(
            RowView { left, right: Some(right) },
            inner,
        ) == left + repeated(' ', (inner - width(left) - width(right)) as nat) + right,
        width(left) + width(right) > inner ==> row_text(
            RowView { left, right: Some(right) },
            inner,
        ) == left + right,
{
    assert(left + repeated(' ', 0) =~= left);
}

/// The box is as wide as its widest row needs, and not narrower than 64.
pub proof fn lemma_box_is_wide_enough(rows: Seq<RowView>)
    ensures
        inner_width(rows) >= 64,
        forall|i: int| 0 <= i < rows.len() ==> row_width(#[trigger] rows[i]) <= inner_width(rows),
        inner_width(rows) == 64 || exists|i: int|
            0 <= i < rows.len() && row_width(#[trigger] rows[i]) == inner_width(rows),
    decreases rows.len(),
{
    if rows.len() > 0 {
        let rest = rows.drop_last();
        lemma_box_is_wide_enough(rest);
        assert forall|i: int| 0 <= i < rows.len() implies row_width(#[trigger] rows[i])
            <= inner_width(rows) by {
            if i < rest.len() {
                assert(rest[i] == rows[i]);
            }
        }
        if inner_width(rows) != 64 {
            if row_width(rows.last()) > inner_width(rest) {
                assert(row_width(rows[rows.len() - 1]) == inner_width(rows));
            } else {
                let i = choose|i: int|
                    0 <= i < rest.len() && row_width(#[trigger] rest[i]) == inner_width(rest);
                assert(row_width(rows[i]) == inner_width(rows));
            }
        }
    }
}

/// The box is an upper border with the title, one line for each row in its order, between
/// borders, and a lower border.
pub proof fn lemma_box_shows_its_rows(rows: Seq<RowView>)
    ensures
        ({
            let lines = box_lines(rows);
            let inner = inner_width(rows);
            &&& lines.len() == rows.len() + 2
            &&& lines[0] == top_line(inner)
            &&& lines.last() == bottom_line(inner)
            &&& forall|i: int|
                0 <= i < rows.len() ==> lines[i + 1] == boxed_line(#[trigger] rows[i], inner)
        }),
        forall|row: RowView, inner: nat|
            width(row_text(row, inner)) <= inner ==> #[trigger] boxed_line(row, inner)
                == "\x1b[36m"@ + "│"@ + "\x1b[0m"@ + " "@ + row_text(row, inner) + repeated(
                ' ',
                (inner - width(row_text(row, inner))) as nat,
            ) + " "@ + "\x1b[36m"@ + "│"@ + "\x1b[0m"@,
        forall|inner: nat| #[trigger]
            bottom_line(inner) == "\x1b[36m"@ + "╰"@ + repeated('─', inner + 2) + "╯"@
                + "\x1b[0m"@,
{
    let lines = box_lines(rows);
    let inner = inner_width(rows);
    assert forall|i: int| 0 <= i < rows.len() implies lines[i + 1] == boxed_line(
        #[trigger] rows[i],
        inner,
    ) by {
    }
}

/// A display replaces the last one: it goes up by the lines of that, if there are any, and
/// clears them; then each line is printed with a line break.
pub proof fn lemma_display_replaces_the_last(
    s: ProxyView,
    device: Seq<char>,
    baud: Seq<char>,
    console_port: u16,
    gdb_port: u16,
    lines: Seq<Seq<char>>,
    line: Seq<char>,
    n: nat,
)
    ensures
        s.status_text(device, baud, console_port, gdb_port) == rewind(s.status_line_count as nat)
            + joined_lines(box_lines(s.status_rows(device, baud, console_port, gdb_port))),
        rewind(0) == Seq::<char>::empty(),
        n > 0 ==> rewind(n) == seq!['\x1b', '['] + decimal(n) + seq!['A', '\x1b', '[', 'J'],
        joined_lines(Seq::empty()) == Seq::<char>::empty(),
        joined_lines(lines.push(line)) == joined_lines(lines) + line + seq!['\n'],
{
    reveal_strlit("\x1b[");
    reveal_strlit("A\x1b[J");
    reveal_strlit("\n");
    assert("\x1b["@ =~= seq!['\x1b', '[']);
    assert("A\x1b[J"@ =~= seq!['A', '\x1b', '[', 'J']);
    assert("\n"@ =~= seq!['\n']);
    assert(lines.push(line).drop_last() =~= lines);
}

/// The upper border bears the name and the version of the proxy, and is filled up to the
/// corner.
pub proof fn lemma_box_bears_its_title(inner: nat)
    ensures
        top_line(inner) == "\x1b[36m"@ + "╭─"@ + "\x1b[0m"@ + " "@ + "\x1b[1m"@ + (
        "kgdb-console-splitting-proxy v"@ + "0.0.1"@) + "\x1b[0m"@ + " "@ + "\x1b[36m"@ + repeated(
            '─',
            if inner > 36 {
                (inner - 36) as nat
            } else {
                0
            },
        ) + "╮"@ + "\x1b[0m"@,
{
    reveal_strlit("kgdb-console-splitting-proxy v");
    reveal_strlit("0.0.1");
    reveal_strlit("─ ");
    reveal_strlit(" ");
    let plain = "─ "@ + ("kgdb-console-splitting-proxy v"@ + "0.0.1"@) + " "@;
    assert(plain.len() == 38);
    lemma_plain_width(plain);
}

proof fn lemma_plain_width(s: Seq<char>)
    requires
        forall|i: int| 0 <= i < s.len() ==> s[i] != '\x1b',
    ensures
        width(s) == s.len(),
        !in_escape(s),
    decreases s.len(),
{
    if s.len() > 0 {
        let rest = s.drop_last();
        assert forall|i: int| 0 <= i < rest.len() implies rest[i] != '\x1b' by {
            assert(rest[i] == s[i]);
        }
        lemma_plain_width(rest);
        assert(s[s.len() - 1] == s.last());
    }
}

/// Without a remote the console has no clients but the local end of the script port. The debugger
/// clients are those of that port all the same.
pub proof fn lemma_clients_without_a_remote(s: ProxyView, sr: PortId)
    requires
        s.has(s.local_port_id),
        s.ports[s.local_port_id].script_ref == Some(sr),
        s.has(sr),
        !s.has(s.remote_port_id),
    ensures
        s.console_clients() == match s.ports[sr].lscript {
            Some(ls) => if s.has(ls) {
                seq![ls]
            } else {
                Seq::empty()
            },
            None => Seq::empty(),
        },
        s.gdb_clients() == s.ports[sr].clients,
{
    if let Some(ls) = s.ports[sr].lscript {
        let one = seq![ls];
        assert(one.drop_last() =~= Seq::<PortId>::empty());
        reveal_with_fuel(present, 2);
        if s.has(ls) {
            assert(present(s.ports, one) =~= seq![ls]);
        } else {
            assert(present(s.ports, one) =~= Seq::<PortId>::empty());
        }
    }
}

/// Without a script port there are no debugger clients.
pub proof fn lemma_no_script_port_no_debuggers(s: ProxyView)
    requires
        !s.has(s.local_port_id) || s.ports[s.local_port_id].script_ref is None,
    ensures
        s.gdb_clients().len() == 0,
{
}

} // verus!
