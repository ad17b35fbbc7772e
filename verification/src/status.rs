//! The status display: a box of rows with the serial line, its console clients and its
//! debugger clients, and the traffic of each.
use vstd::prelude::*;
use crate::amount::{
    as_double, bytes_text, format_bytes, lemma_tenths, rounded, GIB, KIB, MIB,
};
use crate::number::{
    decimal, decimal_of, decimal_signed, decimal_signed_of, is_digit, lemma_decimal,
    lemma_decimal_len,
};
use crate::port::{Port, PortId, PortView};
use crate::round::present;
use crate::setup::{RuntimeConfig, SerialSplitConfig};
use crate::state::{saturated, ProxyState, ProxyView};
use crate::text::{
    chars_of, pad_left, pad_right, padded_left, padded_right, repeat_char, repeated, string_views,
};

verus! {

/// The version of the proxy.
pub const AGENT_VERSION: &'static str = "0.0.1";

pub const ANSI_RESET: &'static str = "\x1b[0m";

pub const ANSI_BOLD: &'static str = "\x1b[1m";

pub const ANSI_DIM: &'static str = "\x1b[2m";

pub const ANSI_BLUE: &'static str = "\x1b[34m";

pub const ANSI_CYAN: &'static str = "\x1b[36m";

pub const ANSI_GREEN: &'static str = "\x1b[32m";

pub const ANSI_MAGENTA: &'static str = "\x1b[35m";

pub const ANSI_RED: &'static str = "\x1b[31m";

pub const ANSI_YELLOW: &'static str = "\x1b[33m";

/// The least width of the box between its borders.
pub const STATUS_MIN_INNER_WIDTH: usize = 64;

/// The least distance of the traffic column from the text of a row.
pub const STATUS_COLUMN_GAP: usize = 2;

/// The width that an amount of traffic is padded to.
pub const TRAFFIC_VALUE_WIDTH: usize = 6;

/// A row of the status display: its text, and what stands at the right border.
pub struct StatusRow {
    pub left: String,
    pub right: Option<String>,
}

/// The abstract value of a [`StatusRow`].
#[verifier::ext_equal]
pub struct RowView {
    pub left: Seq<char>,
    pub right: Option<Seq<char>>,
}

impl View for StatusRow {
    type V = RowView;

    open spec fn view(&self) -> RowView {
        RowView {
            left: self.left@,
            right: match self.right {
                Some(right) => Some(right@),
                None => None,
            },
        }
    }
}

/// The abstract values of `v`.
pub open spec fn row_views(v: Seq<StatusRow>) -> Seq<RowView> {
    v.map_values(|r: StatusRow| r@)
}

/// A row without a right column.
pub open spec fn plain_row(left: Seq<char>) -> RowView {
    RowView { left, right: None }
}

/// The traffic of a row: what was received and what was sent.
pub open spec fn traffic(rx: u64, tx: u64) -> Seq<char> {
    padded_left(bytes_text(rx), TRAFFIC_VALUE_WIDTH as nat) + ANSI_BLUE@ + "⇣"@ + ANSI_RESET@
        + " "@ + padded_left(bytes_text(tx), TRAFFIC_VALUE_WIDTH as nat) + ANSI_YELLOW@ + "⇡"@
        + ANSI_RESET@
}

/// A row with its traffic.
pub open spec fn traffic_row(left: Seq<char>, rx: u64, tx: u64) -> RowView {
    RowView { left, right: Some(traffic(rx, tx)) }
}

/// How many clients are connected.
pub open spec fn client_count(n: nat) -> Seq<char> {
    (if n == 0 {
        ANSI_DIM@
    } else {
        ANSI_GREEN@
    }) + decimal(n) + " connected "@ + (if n == 1 {
        "client"@
    } else {
        "clients"@
    }) + ANSI_RESET@
}

/// The character begins an escape sequence.
pub const ESCAPE: char = '\x1b';

/// The character is a letter of the basic alphabet.
pub open spec fn is_letter(c: char) -> bool {
    'a' <= c <= 'z' || 'A' <= c <= 'Z'
}

/// `s` ends inside an escape sequence, which goes from its first character to a letter.
pub open spec fn in_escape(s: Seq<char>) -> bool
    decreases s.len(),
{
    if s.len() == 0 {
        false
    } else if in_escape(s.drop_last()) {
        !is_letter(s.last())
    } else {
        s.last() == ESCAPE
    }
}

/// The number of characters of `s` that are not part of an escape sequence.
pub open spec fn width(s: Seq<char>) -> nat
    decreases s.len(),
{
    if s.len() == 0 {
        0
    } else if in_escape(s.drop_last()) || s.last() == ESCAPE {
        width(s.drop_last())
    } else {
        width(s.drop_last()) + 1
    }
}

/// The width that a row needs.
pub open spec fn row_width(row: RowView) -> nat {
    match row.right {
        Some(right) => width(row.left) + STATUS_COLUMN_GAP as nat + width(right),
        None => width(row.left),
    }
}

/// `b - a`, or 0 where `a` is larger.
pub open spec fn gap(b: nat, a: nat) -> nat {
    if b > a {
        (b - a) as nat
    } else {
        0
    }
}

/// The text of a row in a box of the inner width `inner`.
pub open spec fn row_text(row: RowView, inner: nat) -> Seq<char> {
    match row.right {
        Some(right) => row.left + repeated(' ', gap(inner, width(row.left) + width(right))) + right,
        None => row.left,
    }
}

/// The inner width of a box of `rows`: what its widest row needs.
pub open spec fn inner_width(rows: Seq<RowView>) -> nat
    decreases rows.len(),
{
    if rows.len() == 0 {
        STATUS_MIN_INNER_WIDTH as nat
    } else {
        let rest = inner_width(rows.drop_last());
        if row_width(rows.last()) > rest {
            row_width(rows.last())
        } else {
            rest
        }
    }
}

/// The title of the box.
pub open spec fn title() -> Seq<char> {
    "kgdb-console-splitting-proxy v"@ + AGENT_VERSION@
}

/// The upper border of a box of the inner width `inner`.
pub open spec fn top_line(inner: nat) -> Seq<char> {
    ANSI_CYAN@ + "╭─"@ + ANSI_RESET@ + " "@ + ANSI_BOLD@ + title() + ANSI_RESET@ + " "@ + ANSI_CYAN@
        + repeated('─', gap(inner + 2, width("─ "@ + title() + " "@))) + "╮"@ + ANSI_RESET@
}

/// A row between the borders of a box of the inner width `inner`.
pub open spec fn boxed_line(row: RowView, inner: nat) -> Seq<char> {
    let line = row_text(row, inner);
    ANSI_CYAN@ + "│"@ + ANSI_RESET@ + " "@ + line + repeated(' ', gap(inner, width(line))) + " "@
        + ANSI_CYAN@ + "│"@ + ANSI_RESET@
}

/// The lower border of a box of the inner width `inner`.
pub open spec fn bottom_line(inner: nat) -> Seq<char> {
    ANSI_CYAN@ + "╰"@ + repeated('─', inner + 2) + "╯"@ + ANSI_RESET@
}

/// The lines of a box of `rows`.
pub open spec fn box_lines(rows: Seq<RowView>) -> Seq<Seq<char>> {
    let inner = inner_width(rows);
    seq![top_line(inner)] + rows.map_values(|r: RowView| boxed_line(r, inner)) + seq![
        bottom_line(inner),
    ]
}

/// A row without a right column.
pub fn status_row(left: String) -> (r: StatusRow)
    ensures
        r@ == plain_row(left@),
{
    StatusRow { left, right: None }
}

/// The traffic of a row: what was received and what was sent.
pub fn format_traffic_stats(rx_bytes: u64, tx_bytes: u64) -> (s: String)
    ensures
        s@ == traffic(rx_bytes, tx_bytes),
{
    let mut s = pad_left(format_bytes(rx_bytes).as_str(), TRAFFIC_VALUE_WIDTH);
    s.append(ANSI_BLUE);
    s.append("⇣");
    s.append(ANSI_RESET);
    s.append(" ");
    s.append(pad_left(format_bytes(tx_bytes).as_str(), TRAFFIC_VALUE_WIDTH).as_str());
    s.append(ANSI_YELLOW);
    s.append("⇡");
    s.append(ANSI_RESET);
    s
}

/// A row with its traffic.
pub fn status_row_with_traffic(left: String, rx_bytes: u64, tx_bytes: u64) -> (r: StatusRow)
    ensures
        r@ == traffic_row(left@, rx_bytes, tx_bytes),
{
    StatusRow { left, right: Some(format_traffic_stats(rx_bytes, tx_bytes)) }
}

/// How many clients are connected.
pub fn format_client_count(count: usize) -> (s: String)
    ensures
        s@ == client_count(count as nat),
{
    let mut s = if count == 0 {
        ANSI_DIM.to_owned()
    } else {
        ANSI_GREEN.to_owned()
    };
    s.append(decimal_of(count as u64).as_str());
    s.append(" connected ");
    if count == 1 {
        s.append("client");
    } else {
        s.append("clients");
    }
    s.append(ANSI_RESET);
    s
}

fn is_ascii_letter(c: char) -> (r: bool)
    ensures
        r == is_letter(c),
{
    ('a' <= c && c <= 'z') || ('A' <= c && c <= 'Z')
}

/// The number of characters of `text` that are not part of an escape sequence.
pub fn visible_width(text: &str) -> (w: usize)
    ensures
        w == width(text@),
{
    let v = chars_of(text);
    let mut w: usize = 0;
    let mut escaped = false;
    let mut i: usize = 0;
    while i < v.len()
        invariant
            v@ == text@,
            i <= v@.len(),
            w <= i,
            w == width(text@.take(i as int)),
            escaped == in_escape(text@.take(i as int)),
        decreases v@.len() - i,
    {
        proof {
            assert(text@.take(i + 1).drop_last() =~= text@.take(i as int));
            assert(text@.take(i + 1).last() == text@[i as int]);
        }
        let c = v[i];
        if escaped {
            if is_ascii_letter(c) {
                escaped = false;
            }
        } else if c == ESCAPE {
            escaped = true;
        } else {
            w = w + 1;
        }
        i = i + 1;
    }
    proof {
        assert(text@.take(text@.len() as int) =~= text@);
    }
    w
}

/// The width that a row needs.
pub fn status_row_width(row: &StatusRow) -> (w: usize)
    requires
        row_width(row@) <= usize::MAX,
    ensures
        w == row_width(row@),
{
    let left_width = visible_width(row.left.as_str());
    match &row.right {
        Some(right) => left_width + STATUS_COLUMN_GAP + visible_width(right.as_str()),
        None => left_width,
    }
}

fn gap_of(b: usize, a: usize) -> (r: usize)
    ensures
        r == gap(b as nat, a as nat),
{
    if b > a {
        b - a
    } else {
        0
    }
}

/// The text of a row in a box of the inner width `inner`.
pub fn render_status_row(row: &StatusRow, inner: usize) -> (s: String)
    requires
        row_width(row@) <= usize::MAX,
    ensures
        s@ == row_text(row@, inner as nat),
{
    match &row.right {
        Some(right) => {
            let used = visible_width(row.left.as_str()) + visible_width(right.as_str());
            let mut s = row.left.as_str().to_owned();
            s.append(repeat_char(' ', gap_of(inner, used)).as_str());
            s.append(right.as_str());
            s
        },
        None => row.left.as_str().to_owned(),
    }
}

/// Every row fits into a box whose width is a machine number.
pub open spec fn rows_fit(rows: Seq<RowView>) -> bool {
    forall|i: int| 0 <= i < rows.len() ==> row_width(#[trigger] rows[i]) + 2 <= usize::MAX
}

proof fn lemma_inner_width(rows: Seq<RowView>)
    requires
        rows_fit(rows),
    ensures
        inner_width(rows) + 2 <= usize::MAX,
    decreases rows.len(),
{
    if rows.len() > 0 {
        let rest = rows.drop_last();
        assert forall|i: int| 0 <= i < rest.len() implies row_width(#[trigger] rest[i]) + 2
            <= usize::MAX by {
            assert(rest[i] == rows[i]);
        }
        lemma_inner_width(rest);
        assert(rows[rows.len() - 1] == rows.last());
    }
}

fn inner_width_of(rows: &Vec<StatusRow>) -> (w: usize)
    requires
        rows_fit(row_views(rows@)),
    ensures
        w == inner_width(row_views(rows@)),
        w + 2 <= usize::MAX,
{
    let ghost views = row_views(rows@);
    let mut w: usize = STATUS_MIN_INNER_WIDTH;
    let mut i: usize = 0;
    while i < rows.len()
        invariant
            i <= rows@.len(),
            views == row_views(rows@),
            rows_fit(views),
            w == inner_width(views.take(i as int)),
        decreases rows@.len() - i,
    {
        proof {
            assert(views[i as int] == rows@[i as int]@);
            assert(views.take(i + 1).drop_last() =~= views.take(i as int));
            assert(views.take(i + 1).last() == views[i as int]);
        }
        let needed = status_row_width(&rows[i]);
        if needed > w {
            w = needed;
        }
        i = i + 1;
    }
    proof {
        assert(views.take(views.len() as int) =~= views);
        lemma_inner_width(views);
    }
    w
}

fn title_text() -> (s: String)
    ensures
        s@ == title(),
{
    let mut s = "kgdb-console-splitting-proxy v".to_owned();
    s.append(AGENT_VERSION);
    s
}

fn top_line_of(inner: usize) -> (s: String)
    requires
        inner + 2 <= usize::MAX,
    ensures
        s@ == top_line(inner as nat),
{
    let title = title_text();
    let mut plain = "─ ".to_owned();
    plain.append(title.as_str());
    plain.append(" ");
    let fill = gap_of(inner + 2, visible_width(plain.as_str()));
    let mut s = ANSI_CYAN.to_owned();
    s.append("╭─");
    s.append(ANSI_RESET);
    s.append(" ");
    s.append(ANSI_BOLD);
    s.append(title.as_str());
    s.append(ANSI_RESET);
    s.append(" ");
    s.append(ANSI_CYAN);
    s.append(repeat_char('─', fill).as_str());
    s.append("╮");
    s.append(ANSI_RESET);
    s
}

fn boxed_line_of(row: &StatusRow, inner: usize) -> (s: String)
    requires
        row_width(row@) <= usize::MAX,
    ensures
        s@ == boxed_line(row@, inner as nat),
{
    let line = render_status_row(row, inner);
    let pad = gap_of(inner, visible_width(line.as_str()));
    let mut s = ANSI_CYAN.to_owned();
    s.append("│");
    s.append(ANSI_RESET);
    s.append(" ");
    s.append(line.as_str());
    s.append(repeat_char(' ', pad).as_str());
    s.append(" ");
    s.append(ANSI_CYAN);
    s.append("│");
    s.append(ANSI_RESET);
    s
}

fn bottom_line_of(inner: usize) -> (s: String)
    requires
        inner + 2 <= usize::MAX,
    ensures
        s@ == bottom_line(inner as nat),
{
    let mut s = ANSI_CYAN.to_owned();
    s.append("╰");
    s.append(repeat_char('─', inner + 2).as_str());
    s.append("╯");
    s.append(ANSI_RESET);
    s
}

/// The lines of a box around `rows`.
pub fn box_status_lines(rows: &Vec<StatusRow>) -> (r: Vec<String>)
    requires
        rows_fit(row_views(rows@)),
    ensures
        string_views(r@) == box_lines(row_views(rows@)),
{
    let ghost views = row_views(rows@);
    let ghost meant = box_lines(views);
    let inner = inner_width_of(rows);
    let mut lines: Vec<String> = Vec::new();
    lines.push(top_line_of(inner));
    let mut i: usize = 0;
    while i < rows.len()
        invariant
            i <= rows@.len(),
            views == row_views(rows@),
            rows_fit(views),
            inner == inner_width(views),
            meant == box_lines(views),
            lines@.len() == i + 1,
            forall|k: int| 0 <= k < lines@.len() ==> (#[trigger] lines@[k])@ == meant[k],
        decreases rows@.len() - i,
    {
        proof {
            assert(views[i as int] == rows@[i as int]@);
            assert(meant[i + 1] == boxed_line(views[i as int], inner as nat));
        }
        lines.push(boxed_line_of(&rows[i], inner));
        i = i + 1;
    }
    proof {
        assert(meant[rows@.len() as int + 1] == bottom_line(inner as nat));
    }
    lines.push(bottom_line_of(inner));
    assert(string_views(lines@) =~= meant);
    lines
}

/// The head row of the clients with the role `role`.
pub open spec fn clients_head(role: Seq<char>) -> RowView {
    plain_row("  "@ + ANSI_DIM@ + role + " clients"@ + ANSI_RESET@)
}

/// The row of the client `id`, which is the port `p`.
pub open spec fn client_row(id: PortId, p: PortView) -> RowView {
    traffic_row(
        "    "@ + ANSI_GREEN@ + "◦"@ + ANSI_RESET@ + " id="@ + padded_right(
            decimal(id as nat),
            3,
        ) + " fd="@ + padded_right(decimal_signed(p.sock as int), 3),
        p.rx_bytes,
        p.tx_bytes,
    )
}

/// The rows of the clients `ids` that are ports.
pub open spec fn client_rows(ports: Map<PortId, PortView>, ids: Seq<PortId>) -> Seq<RowView> {
    present(ports, ids).map_values(|id: PortId| client_row(id, ports[id]))
}

/// The rows that list the clients `ids` with the role `role`.
pub open spec fn clients_status(
    ports: Map<PortId, PortView>,
    role: Seq<char>,
    ids: Seq<PortId>,
) -> Seq<
    RowView,
> {
    if ids.len() == 0 {
        seq![plain_row(ANSI_DIM@ + role + " clients"@ + ANSI_RESET@ + "  none"@)]
    } else {
        seq![clients_head(role)] + client_rows(ports, ids)
    }
}

/// What the ports among `ids` received and sent together.
pub open spec fn totals(ports: Map<PortId, PortView>, ids: Seq<PortId>) -> (u64, u64)
    decreases ids.len(),
{
    if ids.len() == 0 {
        (0, 0)
    } else {
        let (rx, tx) = totals(ports, ids.drop_last());
        if ports.dom().contains(ids.last()) {
            let p = ports[ids.last()];
            (saturated(rx, p.rx_bytes as int), saturated(tx, p.tx_bytes as int))
        } else {
            (rx, tx)
        }
    }
}

/// The start of the row of a serial line that is not open.
pub open spec fn lost_serial_text(name: Seq<char>, baud: Seq<char>) -> Seq<char> {
    ANSI_RED@ + "✕"@ + ANSI_RESET@ + " "@ + ANSI_BOLD@ + "Serial"@ + ANSI_RESET@ + "     "@
        + ANSI_RED@ + name + ANSI_RESET@ + " @ "@ + baud + " baud  "@ + ANSI_RED@
        + "disconnected"@ + ANSI_RESET@
}

/// The row of the serial line: `serial` is its port, if there is one.
pub open spec fn serial_row(
    device: Seq<char>,
    baud: Seq<char>,
    serial: Option<PortView>,
) -> RowView {
    match serial {
        Some(p) => if p.sock >= 0 {
            traffic_row(
                ANSI_MAGENTA@ + "⌁"@ + ANSI_RESET@ + " "@ + ANSI_BOLD@ + "Serial"@ + ANSI_RESET@
                    + "     "@ + ANSI_YELLOW@ + p.name + ANSI_RESET@ + " @ "@ + baud + " baud  "@
                    + ANSI_DIM@ + "fd="@ + decimal_signed(p.sock as int) + ANSI_RESET@,
                p.rx_bytes,
                p.tx_bytes,
            )
        } else {
            traffic_row(lost_serial_text(p.name, baud), p.rx_bytes, p.tx_bytes)
        },
        None => plain_row(lost_serial_text(device, baud)),
    }
}

/// The text of the row of a channel: its icon, its name, its port and its clients.
pub open spec fn channel_text(
    color: Seq<char>,
    icon: Seq<char>,
    name: Seq<char>,
    space: Seq<char>,
    port: u16,
    clients: nat,
) -> Seq<char> {
    color + icon + ANSI_RESET@ + " "@ + ANSI_BOLD@ + name + ANSI_RESET@ + space
        + "tcp://localhost:"@ + decimal(port as nat) + "  "@ + client_count(clients)
}

/// The rows of a channel with the clients `ids`: without clients there is one row and no
/// traffic.
pub open spec fn channel_rows(
    ports: Map<PortId, PortView>,
    text: Seq<char>,
    role: Seq<char>,
    ids: Seq<PortId>,
) -> Seq<RowView> {
    if ids.len() == 0 {
        seq![plain_row(text)]
    } else {
        let (rx, tx) = totals(ports, ids);
        seq![traffic_row(text, rx, tx)] + clients_status(ports, role, ids)
    }
}

impl ProxyView {
    /// The script port of the local port.
    pub open spec fn shown_script(self) -> Option<PortId> {
        if self.has(self.local_port_id) {
            match self.ports[self.local_port_id].script_ref {
                Some(sr) => if self.has(sr) {
                    Some(sr)
                } else {
                    None
                },
                None => None,
            }
        } else {
            None
        }
    }

    /// The clients of the console: those of the serial device.
    pub open spec fn console_clients(self) -> Seq<PortId> {
        if self.has(self.remote_port_id) {
            present(self.ports, self.ports[self.remote_port_id].clients)
        } else {
            match self.shown_script() {
                Some(sr) => match self.ports[sr].lscript {
                    Some(ls) => present(self.ports, seq![ls]),
                    None => Seq::empty(),
                },
                None => Seq::empty(),
            }
        }
    }

    /// The clients of the debugger port.
    pub open spec fn gdb_clients(self) -> Seq<PortId> {
        match self.shown_script() {
            Some(sr) => self.ports[sr].clients,
            None => Seq::empty(),
        }
    }

    /// The rows of the status display.
    pub open spec fn status_rows(
        self,
        device: Seq<char>,
        baud: Seq<char>,
        console_port: u16,
        gdb_port: u16,
    ) -> Seq<RowView> {
        let console = self.console_clients();
        let gdb = self.gdb_clients();
        let serial = if self.has(self.remote_port_id) {
            Some(self.ports[self.remote_port_id])
        } else {
            None
        };
        seq![
            plain_row(
                ANSI_GREEN@ + "●"@ + ANSI_RESET@ + " "@ + ANSI_BOLD@ + "Mode"@ + ANSI_RESET@
                    + "       serial-split"@,
            ),
            serial_row(device, baud, serial),
        ] + channel_rows(
            self.ports,
            channel_text(ANSI_BLUE@, "▣"@, "Console"@, "    "@, console_port, console.len()),
            "console"@,
            console,
        ) + channel_rows(
            self.ports,
            channel_text(ANSI_YELLOW@, "◆"@, "KGDB"@, "       "@, gdb_port, gdb.len()),
            "kgdb"@,
            gdb,
        )
    }
}

fn client_row_of(id: PortId, p: &Port) -> (r: StatusRow)
    ensures
        r@ == client_row(id, p@),
{
    let mut s = "    ".to_owned();
    s.append(ANSI_GREEN);
    s.append("◦");
    s.append(ANSI_RESET);
    s.append(" id=");
    s.append(pad_right(decimal_of(id as u64).as_str(), 3).as_str());
    s.append(" fd=");
    s.append(pad_right(decimal_signed_of(p.sock).as_str(), 3).as_str());
    status_row_with_traffic(s, p.rx_bytes, p.tx_bytes)
}

/// Adds the rows that list the clients `ids` with the role `role` to `lines`.
pub fn push_client_status(
    lines: &mut Vec<StatusRow>,
    state: &ProxyState,
    role: &str,
    ids: &Vec<PortId>,
)
    ensures
        row_views(final(lines)@) == row_views(old(lines)@) + clients_status(
            state@.ports,
            role@,
            ids@,
        ),
{
    let ghost before = row_views(lines@);
    if ids.len() == 0 {
        let mut s = ANSI_DIM.to_owned();
        s.append(role);
        s.append(" clients");
        s.append(ANSI_RESET);
        s.append("  none");
        lines.push(status_row(s));
        assert(row_views(lines@) =~= before + clients_status(state@.ports, role@, ids@));
        return ;
    }
    let mut s = "  ".to_owned();
    s.append(ANSI_DIM);
    s.append(role);
    s.append(" clients");
    s.append(ANSI_RESET);
    lines.push(status_row(s));
    let ghost head = before.push(clients_head(role@));
    let mut k: usize = 0;
    proof {
        assert(row_views(lines@) =~= head + client_rows(state@.ports, ids@.take(0)));
    }
    while k < ids.len()
        invariant
            k <= ids@.len(),
            row_views(lines@) == head + client_rows(state@.ports, ids@.take(k as int)),
        decreases ids@.len() - k,
    {
        let ghost mid = lines@;
        let ghost seen = present(state@.ports, ids@.take(k as int));
        proof {
            assert(ids@.take(k + 1).drop_last() =~= ids@.take(k as int));
        }
        if let Some(p) = state.ports.get(ids[k]) {
            let row = client_row_of(ids[k], p);
            lines.push(row);
            proof {
                assert(row_views(lines@) =~= row_views(mid).push(row@));
                assert(client_rows(state@.ports, ids@.take(k + 1)) =~= client_rows(
                    state@.ports,
                    ids@.take(k as int),
                ).push(row@));
            }
        }
        k = k + 1;
    }
    proof {
        assert(ids@.take(ids@.len() as int) =~= ids@);
        assert(row_views(lines@) =~= before + clients_status(state@.ports, role@, ids@));
    }
}

/// What the ports among `ids` received and sent together.
pub fn client_traffic_totals(state: &ProxyState, ids: &Vec<PortId>) -> (r: (u64, u64))
    ensures
        r == totals(state@.ports, ids@),
{
    let mut rx: u64 = 0;
    let mut tx: u64 = 0;
    let mut k: usize = 0;
    while k < ids.len()
        invariant
            k <= ids@.len(),
            (rx, tx) == totals(state@.ports, ids@.take(k as int)),
        decreases ids@.len() - k,
    {
        proof {
            assert(ids@.take(k + 1).drop_last() =~= ids@.take(k as int));
        }
        if let Some(p) = state.ports.get(ids[k]) {
            rx = rx.saturating_add(p.rx_bytes);
            tx = tx.saturating_add(p.tx_bytes);
        }
        k = k + 1;
    }
    proof {
        assert(ids@.take(ids@.len() as int) =~= ids@);
    }
    (rx, tx)
}

fn lost_serial_text_of(name: &str, baud: &str) -> (s: String)
    ensures
        s@ == lost_serial_text(name@, baud@),
{
    let mut s = ANSI_RED.to_owned();
    s.append("✕");
    s.append(ANSI_RESET);
    s.append(" ");
    s.append(ANSI_BOLD);
    s.append("Serial");
    s.append(ANSI_RESET);
    s.append("     ");
    s.append(ANSI_RED);
    s.append(name);
    s.append(ANSI_RESET);
    s.append(" @ ");
    s.append(baud);
    s.append(" baud  ");
    s.append(ANSI_RED);
    s.append("disconnected");
    s.append(ANSI_RESET);
    s
}

/// The row of the serial line: `serial` is its port, if there is one.
pub fn serial_status_row(config: &SerialSplitConfig, serial: Option<&Port>) -> (r: StatusRow)
    ensures
        r@ == serial_row(
            config.device@,
            config.baud@,
            match serial {
                Some(p) => Some(p@),
                None => None,
            },
        ),
{
    match serial {
        Some(p) => {
            if p.sock >= 0 {
                let mut s = ANSI_MAGENTA.to_owned();
                s.append("⌁");
                s.append(ANSI_RESET);
                s.append(" ");
                s.append(ANSI_BOLD);
                s.append("Serial");
                s.append(ANSI_RESET);
                s.append("     ");
                s.append(ANSI_YELLOW);
                s.append(p.name.as_str());
                s.append(ANSI_RESET);
                s.append(" @ ");
                s.append(config.baud.as_str());
                s.append(" baud  ");
                s.append(ANSI_DIM);
                s.append("fd=");
                s.append(decimal_signed_of(p.sock).as_str());
                s.append(ANSI_RESET);
                status_row_with_traffic(s, p.rx_bytes, p.tx_bytes)
            } else {
                let s = lost_serial_text_of(p.name.as_str(), config.baud.as_str());
                status_row_with_traffic(s, p.rx_bytes, p.tx_bytes)
            }
        },
        None => status_row(
            lost_serial_text_of(config.device.as_str(), config.baud.as_str()),
        ),
    }
}

fn channel_text_of(
    color: &str,
    icon: &str,
    name: &str,
    space: &str,
    port: u16,
    clients: usize,
) -> (s: String)
    ensures
        s@ == channel_text(color@, icon@, name@, space@, port, clients as nat),
{
    let mut s = color.to_owned();
    s.append(icon);
    s.append(ANSI_RESET);
    s.append(" ");
    s.append(ANSI_BOLD);
    s.append(name);
    s.append(ANSI_RESET);
    s.append(space);
    s.append("tcp://localhost:");
    s.append(decimal_of(port as u64).as_str());
    s.append("  ");
    s.append(format_client_count(clients).as_str());
    s
}

fn push_channel(
    lines: &mut Vec<StatusRow>,
    state: &ProxyState,
    text: String,
    role: &str,
    ids: &Vec<PortId>,
)
    ensures
        row_views(final(lines)@) == row_views(old(lines)@) + channel_rows(
            state@.ports,
            text@,
            role@,
            ids@,
        ),
{
    let ghost before = row_views(lines@);
    if ids.len() == 0 {
        lines.push(status_row(text));
        assert(row_views(lines@) =~= before + channel_rows(state@.ports, text@, role@, ids@));
    } else {
        let (rx, tx) = client_traffic_totals(state, ids);
        lines.push(status_row_with_traffic(text, rx, tx));
        assert(row_views(lines@) =~= before.push(traffic_row(text@, rx, tx)));
        push_client_status(lines, state, role, ids);
        assert(row_views(lines@) =~= before + channel_rows(state@.ports, text@, role@, ids@));
    }
}

impl ProxyState {
    fn present_of(&self, ids: &Vec<PortId>) -> (r: Vec<PortId>)
        ensures
            r@ == present(self@.ports, ids@),
    {
        let mut r: Vec<PortId> = Vec::new();
        let mut k: usize = 0;
        while k < ids.len()
            invariant
                k <= ids@.len(),
                r@ == present(self@.ports, ids@.take(k as int)),
            decreases ids@.len() - k,
        {
            proof {
                assert(ids@.take(k + 1).drop_last() =~= ids@.take(k as int));
            }
            if self.ports.contains(ids[k]) {
                r.push(ids[k]);
            }
            k = k + 1;
        }
        proof {
            assert(ids@.take(ids@.len() as int) =~= ids@);
        }
        r
    }

    fn shown_script(&self) -> (r: Option<&Port>)
        ensures
            match r {
                Some(sp) => self@.shown_script() is Some && sp@
                    == self@.ports[self@.shown_script()->0],
                None => self@.shown_script() is None,
            },
    {
        match self.ports.get(self.local_port_id) {
            Some(local) => match local.script_ref {
                Some(sr) => self.ports.get(sr),
                None => None,
            },
            None => None,
        }
    }

    fn console_clients(&self) -> (r: Vec<PortId>)
        ensures
            r@ == self@.console_clients(),
    {
        match self.ports.get(self.remote_port_id) {
            Some(serial) => self.present_of(&serial.clients),
            None => match self.shown_script() {
                Some(sp) => match sp.lscript {
                    Some(ls) => {
                        let one: Vec<PortId> = vec![ls];
                        assert(one@ =~= seq![ls]);
                        self.present_of(&one)
                    },
                    None => Vec::new(),
                },
                None => Vec::new(),
            },
        }
    }

    /// The rows of the status display for the split line `config`.
    pub fn status_rows(&self, config: &SerialSplitConfig) -> (r: Vec<StatusRow>)
        ensures
            row_views(r@) == self@.status_rows(
                config.device@,
                config.baud@,
                config.console_port,
                config.gdb_port,
            ),
    {
        let console = self.console_clients();
        let none: Vec<PortId> = Vec::new();
        let gdb = match self.shown_script() {
            Some(sp) => &sp.clients,
            None => &none,
        };
        assert(gdb@ =~= self@.gdb_clients());
        let mut s = ANSI_GREEN.to_owned();
        s.append("●");
        s.append(ANSI_RESET);
        s.append(" ");
        s.append(ANSI_BOLD);
        s.append("Mode");
        s.append(ANSI_RESET);
        s.append("       serial-split");
        let mut lines: Vec<StatusRow> = Vec::new();
        lines.push(status_row(s));
        lines.push(serial_status_row(config, self.ports.get(self.remote_port_id)));
        proof {
            let first = self@.status_rows(
                config.device@,
                config.baud@,
                config.console_port,
                config.gdb_port,
            ).take(2);
            assert(row_views(lines@) =~= first);
        }
        let text = channel_text_of(
            ANSI_BLUE,
            "▣",
            "Console",
            "    ",
            config.console_port,
            console.len(),
        );
        push_channel(&mut lines, self, text, "console", &console);
        let text = channel_text_of(
            ANSI_YELLOW,
            "◆",
            "KGDB",
            "       ",
            config.gdb_port,
            gdb.len(),
        );
        push_channel(&mut lines, self, text, "kgdb", gdb);
        proof {
            assert(row_views(lines@) =~= self@.status_rows(
                config.device@,
                config.baud@,
                config.console_port,
                config.gdb_port,
            ));
        }
        lines
    }
}

proof fn lemma_width_len(s: Seq<char>)
    ensures
        width(s) <= s.len(),
    decreases s.len(),
{
    if s.len() > 0 {
        lemma_width_len(s.drop_last());
    }
}

proof fn lemma_color_lengths()
    ensures
        ANSI_RESET@.len() == 4,
        ANSI_BOLD@.len() == 4,
        ANSI_DIM@.len() == 4,
        ANSI_BLUE@.len() == 5,
        ANSI_CYAN@.len() == 5,
        ANSI_GREEN@.len() == 5,
        ANSI_MAGENTA@.len() == 5,
        ANSI_RED@.len() == 5,
        ANSI_YELLOW@.len() == 5,
{
    reveal_strlit("\x1b[0m");
    reveal_strlit("\x1b[1m");
    reveal_strlit("\x1b[2m");
    reveal_strlit("\x1b[34m");
    reveal_strlit("\x1b[36m");
    reveal_strlit("\x1b[32m");
    reveal_strlit("\x1b[35m");
    reveal_strlit("\x1b[31m");
    reveal_strlit("\x1b[33m");
}

proof fn lemma_bytes_text_len(n: u64)
    ensures
        bytes_text(n).len() <= 26,
{
    reveal_strlit(".");
    reveal_strlit(" GiB");
    reveal_strlit(" MiB");
    reveal_strlit(" KiB");
    reveal_strlit(" B");
    lemma_decimal_len(n as nat);
    if n >= KIB {
        let unit = if n >= GIB {
            GIB
        } else if n >= MIB {
            MIB
        } else {
            KIB
        };
        lemma_tenths(n, unit);
        let tenths = rounded(as_double(n as nat) * 10, unit as nat);
        lemma_decimal_len(tenths / 10);
        assert(decimal(tenths % 10).len() == 1);
    }
}

proof fn lemma_traffic_len(rx: u64, tx: u64)
    ensures
        traffic(rx, tx).len() <= 73,
{
    lemma_color_lengths();
    lemma_bytes_text_len(rx);
    lemma_bytes_text_len(tx);
    reveal_strlit("⇣");
    reveal_strlit("⇡");
    reveal_strlit(" ");
}

proof fn lemma_signed_len(n: i32)
    ensures
        decimal_signed(n as int).len() <= 21,
{
    if n < 0 {
        lemma_decimal_len((-(n as int)) as nat);
    } else {
        lemma_decimal_len(n as nat);
    }
}

proof fn lemma_client_count_len(n: usize)
    ensures
        client_count(n as nat).len() <= 47,
{
    lemma_color_lengths();
    lemma_decimal_len(n as nat);
    reveal_strlit(" connected ");
    reveal_strlit("client");
    reveal_strlit("clients");
}

/// No row needs more than `m`.
pub open spec fn rows_within(rows: Seq<RowView>, m: nat) -> bool {
    forall|i: int| 0 <= i < rows.len() ==> row_width(#[trigger] rows[i]) <= m
}

proof fn lemma_row_within(left: Seq<char>, rx: u64, tx: u64, m: nat)
    requires
        left.len() + 75 <= m,
    ensures
        row_width(plain_row(left)) <= m,
        row_width(traffic_row(left, rx, tx)) <= m,
{
    lemma_width_len(left);
    lemma_width_len(traffic(rx, tx));
    lemma_traffic_len(rx, tx);
}

proof fn lemma_channel_within(
    ports: Map<PortId, PortView>,
    text: Seq<char>,
    role: Seq<char>,
    ids: Seq<PortId>,
    m: nat,
)
    requires
        text.len() + 75 <= m,
        role.len() <= 10,
        m >= 180,
    ensures
        rows_within(channel_rows(ports, text, role, ids), m),
{
    let rows = channel_rows(ports, text, role, ids);
    let (rx, tx) = totals(ports, ids);
    lemma_row_within(text, rx, tx, m);
    lemma_color_lengths();
    reveal_strlit("  ");
    reveal_strlit(" clients");
    reveal_strlit("    ");
    reveal_strlit("◦");
    reveal_strlit(" id=");
    reveal_strlit(" fd=");
    let head = clients_head(role);
    lemma_row_within(head.left, 0, 0, m);
    assert forall|i: int| 0 <= i < rows.len() implies row_width(#[trigger] rows[i]) <= m by {
        if i >= 2 {
            let id = present(ports, ids)[i - 2];
            let p = ports[id];
            assert(rows[i] == client_row(id, p));
            lemma_decimal_len(id as nat);
            lemma_signed_len(p.sock);
            lemma_row_within(client_row(id, p).left, p.rx_bytes, p.tx_bytes, m);
        } else if i == 1 {
            assert(rows[i] == head);
        }
    }
}

proof fn lemma_serial_within(device: Seq<char>, baud: Seq<char>, serial: Option<PortView>, m: nat)
    requires
        device.len() + baud.len() + 200 <= m,
        serial matches Some(p) ==> p.name.len() + baud.len() + 200 <= m,
    ensures
        row_width(serial_row(device, baud, serial)) <= m,
{
    lemma_color_lengths();
    reveal_strlit("✕");
    reveal_strlit("⌁");
    reveal_strlit(" ");
    reveal_strlit("Serial");
    reveal_strlit("     ");
    reveal_strlit(" @ ");
    reveal_strlit(" baud  ");
    reveal_strlit("fd=");
    reveal_strlit("disconnected");
    let row = serial_row(device, baud, serial);
    match serial {
        Some(p) => {
            lemma_signed_len(p.sock);
            lemma_row_within(row.left, p.rx_bytes, p.tx_bytes, m);
        },
        None => {
            lemma_row_within(row.left, 0, 0, m);
        },
    }
}

/// The name of the remote and the configured texts are far from the limits of a machine
/// number.
pub open spec fn names_fit(s: ProxyView, device: Seq<char>, baud: Seq<char>) -> bool {
    &&& device.len() + baud.len() + 1000 <= usize::MAX
    &&& s.has(s.remote_port_id) ==> s.ports[s.remote_port_id].name.len() + baud.len() + 1000
        <= usize::MAX
}

proof fn lemma_status_rows_fit(
    s: ProxyView,
    device: Seq<char>,
    baud: Seq<char>,
    console_port: u16,
    gdb_port: u16,
    consoles: usize,
    gdbs: usize,
)
    requires
        names_fit(s, device, baud),
        consoles == s.console_clients().len(),
        gdbs == s.gdb_clients().len(),
    ensures
        rows_fit(s.status_rows(device, baud, console_port, gdb_port)),
{
    let m = (usize::MAX - 2) as nat;
    let rows = s.status_rows(device, baud, console_port, gdb_port);
    let serial = if s.has(s.remote_port_id) {
        Some(s.ports[s.remote_port_id])
    } else {
        None
    };
    lemma_serial_within(device, baud, serial, m);
    lemma_color_lengths();
    lemma_client_count_len(consoles);
    lemma_client_count_len(gdbs);
    lemma_decimal_len(console_port as nat);
    lemma_decimal_len(gdb_port as nat);
    reveal_strlit("●");
    reveal_strlit(" ");
    reveal_strlit("Mode");
    reveal_strlit("       serial-split");
    reveal_strlit("▣");
    reveal_strlit("◆");
    reveal_strlit("Console");
    reveal_strlit("KGDB");
    reveal_strlit("    ");
    reveal_strlit("       ");
    reveal_strlit("tcp://localhost:");
    reveal_strlit("  ");
    reveal_strlit("console");
    reveal_strlit("kgdb");
    let text1 = channel_text(ANSI_BLUE@, "▣"@, "Console"@, "    "@, console_port, consoles as nat);
    let text2 = channel_text(ANSI_YELLOW@, "◆"@, "KGDB"@, "       "@, gdb_port, gdbs as nat);
    let rows1 = channel_rows(s.ports, text1, "console"@, s.console_clients());
    let rows2 = channel_rows(s.ports, text2, "kgdb"@, s.gdb_clients());
    lemma_channel_within(s.ports, text1, "console"@, s.console_clients(), m);
    lemma_channel_within(s.ports, text2, "kgdb"@, s.gdb_clients(), m);
    lemma_row_within(rows[0].left, 0, 0, m);
    assert forall|i: int| 0 <= i < rows.len() implies row_width(#[trigger] rows[i]) + 2
        <= usize::MAX by {
        if i >= 2 + rows1.len() {
            assert(rows[i] == rows2[i - 2 - rows1.len()]);
        } else if i >= 2 {
            assert(rows[i] == rows1[i - 2]);
        }
    }
}

/// `lines`, each followed by a line break.
pub open spec fn joined_lines(lines: Seq<Seq<char>>) -> Seq<char>
    decreases lines.len(),
{
    if lines.len() == 0 {
        Seq::empty()
    } else {
        joined_lines(lines.drop_last()) + lines.last() + "\n"@
    }
}

/// What goes back to the beginning of a display of `n` lines and clears it.
pub open spec fn rewind(n: nat) -> Seq<char> {
    if n > 0 {
        "\x1b["@ + decimal(n) + "A\x1b[J"@
    } else {
        Seq::empty()
    }
}

impl ProxyView {
    /// What is printed to show the status of the split line in place of the last display.
    pub open spec fn status_text(
        self,
        device: Seq<char>,
        baud: Seq<char>,
        console_port: u16,
        gdb_port: u16,
    ) -> Seq<char> {
        rewind(self.status_line_count as nat) + joined_lines(
            box_lines(self.status_rows(device, baud, console_port, gdb_port)),
        )
    }
}

impl ProxyState {
    /// Shows the status: the result is what is to be printed in place of the last display.
    /// Without a split line there is nothing to show.
    pub fn print_runtime_status(&mut self, config: &RuntimeConfig) -> (r: Option<String>)
        requires
            old(self).wf(),
            config.serial_split matches Some(c) ==> names_fit(
                old(self)@,
                c.device@,
                c.baud@,
            ),
        ensures
            final(self).wf(),
            match (config.serial_split, r) {
                (Some(c), Some(text)) => {
                    let rows = old(self)@.status_rows(
                        c.device@,
                        c.baud@,
                        c.console_port,
                        c.gdb_port,
                    );
                    &&& text@ == old(self)@.status_text(
                        c.device@,
                        c.baud@,
                        c.console_port,
                        c.gdb_port,
                    )
                    &&& final(self)@ == (ProxyView {
                        status_dirty: false,
                        status_line_count: box_lines(rows).len() as usize,
                        ..old(self)@
                    })
                    &&& box_lines(rows).len() <= usize::MAX
                },
                (None, None) => final(self)@ == (ProxyView { status_dirty: false, ..old(self)@ }),
                _ => false,
            },
    {
        let c = match &config.serial_split {
            Some(c) => c,
            None => {
                self.status_dirty = false;
                return None;
            },
        };
        let console = self.console_clients();
        let gdbs = match self.shown_script() {
            Some(sp) => sp.clients.len(),
            None => 0,
        };
        let rows = self.status_rows(c);
        proof {
            lemma_status_rows_fit(
                self@,
                c.device@,
                c.baud@,
                c.console_port,
                c.gdb_port,
                console.len(),
                gdbs,
            );
        }
        let lines = box_status_lines(&rows);
        let ghost views = string_views(lines@);
        let mut text = String::new();
        if self.status_line_count > 0 {
            text.append("\x1b[");
            text.append(decimal_of(self.status_line_count as u64).as_str());
            text.append("A\x1b[J");
        }
        let ghost start = text@;
        proof {
            assert(start =~= rewind(self@.status_line_count as nat));
            assert(start + joined_lines(views.take(0)) =~= start);
        }
        let mut i: usize = 0;
        while i < lines.len()
            invariant
                i <= lines@.len(),
                views == string_views(lines@),
                text@ == start + joined_lines(views.take(i as int)),
            decreases lines@.len() - i,
        {
            let ghost before = text@;
            proof {
                assert(views.take(i + 1).drop_last() =~= views.take(i as int));
                assert(views.take(i + 1).last() == lines@[i as int]@);
            }
            text.append(lines[i].as_str());
            text.append("\n");
            proof {
                assert(text@ =~= start + joined_lines(views.take(i + 1)));
            }
            i = i + 1;
        }
        proof {
            assert(views.take(views.len() as int) =~= views);
        }
        self.status_line_count = lines.len();
        self.status_dirty = false;
        Some(text)
    }
}

/// `s` holds no character that begins an escape sequence.
pub open spec fn is_plain(s: Seq<char>) -> bool {
    forall|i: int| 0 <= i < s.len() ==> s[i] != ESCAPE
}

proof fn lemma_plain(s: Seq<char>)
    requires
        is_plain(s),
    ensures
        !in_escape(s),
        width(s) == s.len(),
    decreases s.len(),
{
    if s.len() > 0 {
        lemma_plain(s.drop_last());
    }
}

proof fn lemma_join(a: Seq<char>, b: Seq<char>)
    requires
        !in_escape(a),
    ensures
        in_escape(a + b) == in_escape(b),
        width(a + b) == width(a) + width(b),
    decreases b.len(),
{
    if b.len() == 0 {
        assert(a + b =~= a);
    } else {
        lemma_join(a, b.drop_last());
        assert((a + b).drop_last() =~= a + b.drop_last());
        assert((a + b).last() == b.last());
    }
}

proof fn lemma_sequence_part(s: Seq<char>, k: int)
    requires
        1 <= k <= s.len(),
        s[0] == ESCAPE,
        forall|i: int| 1 <= i < k ==> !is_letter(#[trigger] s[i]),
    ensures
        in_escape(s.take(k)),
        width(s.take(k)) == 0,
    decreases k,
{
    let t = s.take(k);
    assert(t.drop_last() =~= s.take(k - 1));
    assert(t.last() == s[k - 1]);
    if k > 1 {
        lemma_sequence_part(s, k - 1);
    } else {
        assert(s.take(0) =~= Seq::<char>::empty());
        assert(width(s.take(0)) == 0);
    }
}

proof fn lemma_sequence(s: Seq<char>)
    requires
        s.len() >= 2,
        s[0] == ESCAPE,
        is_letter(s.last()),
        forall|i: int| 1 <= i < s.len() - 1 ==> !is_letter(#[trigger] s[i]),
    ensures
        !in_escape(s),
        width(s) == 0,
{
    lemma_sequence_part(s, s.len() - 1);
    assert(s.drop_last() =~= s.take(s.len() - 1));
}

/// `s` does not end inside an escape sequence and has the width `w`.
pub open spec fn is_wide(s: Seq<char>, w: nat) -> bool {
    !in_escape(s) && width(s) == w
}

proof fn lemma_colors()
    ensures
        is_wide(ANSI_RESET@, 0),
        is_wide(ANSI_BOLD@, 0),
        is_wide(ANSI_DIM@, 0),
        is_wide(ANSI_BLUE@, 0),
        is_wide(ANSI_CYAN@, 0),
        is_wide(ANSI_GREEN@, 0),
        is_wide(ANSI_MAGENTA@, 0),
        is_wide(ANSI_RED@, 0),
        is_wide(ANSI_YELLOW@, 0),
{
    reveal_strlit("\x1b[0m");
    reveal_strlit("\x1b[1m");
    reveal_strlit("\x1b[2m");
    reveal_strlit("\x1b[34m");
    reveal_strlit("\x1b[36m");
    reveal_strlit("\x1b[32m");
    reveal_strlit("\x1b[35m");
    reveal_strlit("\x1b[31m");
    reveal_strlit("\x1b[33m");
    lemma_sequence(ANSI_RESET@);
    lemma_sequence(ANSI_BOLD@);
    lemma_sequence(ANSI_DIM@);
    lemma_sequence(ANSI_BLUE@);
    lemma_sequence(ANSI_CYAN@);
    lemma_sequence(ANSI_GREEN@);
    lemma_sequence(ANSI_MAGENTA@);
    lemma_sequence(ANSI_RED@);
    lemma_sequence(ANSI_YELLOW@);
}

proof fn lemma_wide_join(a: Seq<char>, wa: nat, b: Seq<char>, wb: nat)
    requires
        is_wide(a, wa),
        is_wide(b, wb),
    ensures
        is_wide(a + b, wa + wb),
{
    lemma_join(a, b);
}

proof fn lemma_wide_plain(s: Seq<char>)
    requires
        is_plain(s),
    ensures
        is_wide(s, s.len()),
{
    lemma_plain(s);
}

/// The texts of the row do not end inside an escape sequence.
pub open spec fn row_closed(row: RowView) -> bool {
    !in_escape(row.left) && match row.right {
        Some(right) => !in_escape(right),
        None => true,
    }
}

proof fn lemma_row_text(row: RowView, inner: nat)
    requires
        row_closed(row),
        match row.right {
            Some(right) => width(row.left) + width(right) <= inner,
            None => width(row.left) <= inner,
        },
    ensures
        !in_escape(row_text(row, inner)),
        width(row_text(row, inner)) <= inner,
        row.right is Some ==> width(row_text(row, inner)) == inner,
{
    if let Some(right) = row.right {
        let n = gap(inner, width(row.left) + width(right));
        let pad = repeated(' ', n);
        lemma_wide_plain(pad);
        lemma_wide_join(row.left, width(row.left), pad, n);
        lemma_wide_join(row.left + pad, width(row.left) + n, right, width(right));
    }
}

proof fn lemma_boxed_line(row: RowView, inner: nat)
    requires
        row_closed(row),
        row_width(row) <= inner,
    ensures
        width(boxed_line(row, inner)) == inner + 4,
{
    lemma_colors();
    lemma_row_text(row, inner);
    let line = row_text(row, inner);
    let w = width(line);
    let n = gap(inner, w);
    let pad = repeated(' ', n);
    reveal_strlit("│");
    reveal_strlit(" ");
    lemma_wide_plain("│"@);
    lemma_wide_plain(" "@);
    lemma_wide_plain(pad);
    let a1 = ANSI_CYAN@ + "│"@;
    lemma_wide_join(ANSI_CYAN@, 0, "│"@, 1);
    let a2 = a1 + ANSI_RESET@;
    lemma_wide_join(a1, 1, ANSI_RESET@, 0);
    let a3 = a2 + " "@;
    lemma_wide_join(a2, 1, " "@, 1);
    let a4 = a3 + line;
    lemma_wide_join(a3, 2, line, w);
    let a5 = a4 + pad;
    lemma_wide_join(a4, 2 + w, pad, n);
    let a6 = a5 + " "@;
    lemma_wide_join(a5, 2 + w + n, " "@, 1);
    let a7 = a6 + ANSI_CYAN@;
    lemma_wide_join(a6, 3 + w + n, ANSI_CYAN@, 0);
    let a8 = a7 + "│"@;
    lemma_wide_join(a7, 3 + w + n, "│"@, 1);
    lemma_wide_join(a8, 4 + w + n, ANSI_RESET@, 0);
}

proof fn lemma_bottom_line(inner: nat)
    ensures
        width(bottom_line(inner)) == inner + 4,
{
    lemma_colors();
    reveal_strlit("╰");
    reveal_strlit("╯");
    let fill = repeated('─', inner + 2);
    lemma_wide_plain("╰"@);
    lemma_wide_plain("╯"@);
    lemma_wide_plain(fill);
    let a1 = ANSI_CYAN@ + "╰"@;
    lemma_wide_join(ANSI_CYAN@, 0, "╰"@, 1);
    let a2 = a1 + fill;
    lemma_wide_join(a1, 1, fill, inner + 2);
    let a3 = a2 + "╯"@;
    lemma_wide_join(a2, inner + 3, "╯"@, 1);
    lemma_wide_join(a3, inner + 4, ANSI_RESET@, 0);
}

proof fn lemma_top_line(inner: nat)
    requires
        inner >= STATUS_MIN_INNER_WIDTH,
    ensures
        width(top_line(inner)) == inner + 4,
{
    lemma_colors();
    reveal_strlit("kgdb-console-splitting-proxy v");
    reveal_strlit("0.0.1");
    reveal_strlit("─ ");
    reveal_strlit(" ");
    reveal_strlit("╭─");
    reveal_strlit("╮");
    let t = title();
    lemma_wide_plain("kgdb-console-splitting-proxy v"@);
    lemma_wide_plain(AGENT_VERSION@);
    lemma_wide_join("kgdb-console-splitting-proxy v"@, 30, AGENT_VERSION@, 5);
    lemma_wide_plain("─ "@);
    lemma_wide_plain(" "@);
    lemma_wide_plain("╭─"@);
    lemma_wide_plain("╮"@);
    lemma_wide_join("─ "@, 2, t, 35);
    lemma_wide_join("─ "@ + t, 37, " "@, 1);
    let n = (inner + 2 - 38) as nat;
    let fill = repeated('─', n);
    lemma_wide_plain(fill);
    let a1 = ANSI_CYAN@ + "╭─"@;
    lemma_wide_join(ANSI_CYAN@, 0, "╭─"@, 2);
    let a2 = a1 + ANSI_RESET@;
    lemma_wide_join(a1, 2, ANSI_RESET@, 0);
    let a3 = a2 + " "@;
    lemma_wide_join(a2, 2, " "@, 1);
    let a4 = a3 + ANSI_BOLD@;
    lemma_wide_join(a3, 3, ANSI_BOLD@, 0);
    let a5 = a4 + t;
    lemma_wide_join(a4, 3, t, 35);
    let a6 = a5 + ANSI_RESET@;
    lemma_wide_join(a5, 38, ANSI_RESET@, 0);
    let a7 = a6 + " "@;
    lemma_wide_join(a6, 38, " "@, 1);
    let a8 = a7 + ANSI_CYAN@;
    lemma_wide_join(a7, 39, ANSI_CYAN@, 0);
    let a9 = a8 + fill;
    lemma_wide_join(a8, 39, fill, n);
    let a10 = a9 + "╮"@;
    lemma_wide_join(a9, 39 + n, "╮"@, 1);
    lemma_wide_join(a10, 40 + n, ANSI_RESET@, 0);
}

proof fn lemma_inner_width_covers(rows: Seq<RowView>, k: int)
    requires
        0 <= k < rows.len(),
    ensures
        row_width(rows[k]) <= inner_width(rows),
        inner_width(rows) >= STATUS_MIN_INNER_WIDTH,
    decreases rows.len(),
{
    let rest = rows.drop_last();
    if k < rest.len() {
        lemma_inner_width_covers(rest, k);
        assert(rest[k] == rows[k]);
    } else {
        lemma_inner_width_least(rest);
    }
}

proof fn lemma_inner_width_least(rows: Seq<RowView>)
    ensures
        inner_width(rows) >= STATUS_MIN_INNER_WIDTH,
    decreases rows.len(),
{
    if rows.len() > 0 {
        lemma_inner_width_least(rows.drop_last());
    }
}

/// The box is aligned: all its lines, the borders and the rows, are equally wide on the
/// screen, for rows of any text that does not end inside an escape sequence.
pub proof fn lemma_box_is_aligned(rows: Seq<RowView>, k: int)
    requires
        forall|i: int| 0 <= i < rows.len() ==> row_closed(#[trigger] rows[i]),
        0 <= k < box_lines(rows).len(),
    ensures
        width(box_lines(rows)[k]) == inner_width(rows) + 4,
{
    let inner = inner_width(rows);
    lemma_inner_width_least(rows);
    if k == 0 {
        lemma_top_line(inner);
    } else if k <= rows.len() {
        lemma_inner_width_covers(rows, k - 1);
        assert(box_lines(rows)[k] == boxed_line(rows[k - 1], inner));
        lemma_boxed_line(rows[k - 1], inner);
    } else {
        assert(box_lines(rows)[k] == bottom_line(inner));
        lemma_bottom_line(inner);
    }
}

/// The right column ends at the edge, whatever the width: in every box with room for both
/// columns the text of a row with a right column fills the width exactly, and ends with the
/// right column.
pub proof fn lemma_right_column_ends_at_the_edge(row: RowView, inner: nat)
    requires
        row_closed(row),
        row.right is Some,
        width(row.left) + width(row.right->0) <= inner,
    ensures
        width(row_text(row, inner)) == inner,
        ({
            let text = row_text(row, inner);
            let right = row.right->0;
            &&& text.len() >= right.len()
            &&& text.skip(text.len() - right.len()) == right
        }),
{
    lemma_row_text(row, inner);
    let text = row_text(row, inner);
    let right = row.right->0;
    assert(text.skip(text.len() - right.len()) =~= right);
}

/// The right column ends at the right border: the text of a row with a right column fills
/// the box exactly.
pub proof fn lemma_right_column_is_flush(rows: Seq<RowView>, k: int)
    requires
        0 <= k < rows.len(),
        row_closed(rows[k]),
        rows[k].right is Some,
    ensures
        width(row_text(rows[k], inner_width(rows))) == inner_width(rows),
{
    lemma_inner_width_covers(rows, k);
    lemma_row_text(rows[k], inner_width(rows));
}

proof fn lemma_reset_closes(x: Seq<char>)
    ensures
        !in_escape(x + ANSI_RESET@),
{
    reveal_strlit("\x1b[0m");
    let r = ANSI_RESET@;
    let s4 = x + r;
    let s3 = x + r.take(3);
    let s2 = x + r.take(2);
    let s1 = x + r.take(1);
    assert(s4.drop_last() =~= s3);
    assert(s3.drop_last() =~= s2);
    assert(s2.drop_last() =~= s1);
    assert(s1.drop_last() =~= x);
    assert(s1.last() == ESCAPE);
    assert(in_escape(s1));
    assert(s2.last() == '[');
    assert(in_escape(s2));
    assert(s3.last() == '0');
    assert(in_escape(s3));
    assert(s4.last() == 'm');
}

proof fn lemma_plain_end_closes(x: Seq<char>, end: Seq<char>)
    requires
        !in_escape(x),
        is_plain(end),
    ensures
        !in_escape(x + end),
{
    lemma_plain(end);
    lemma_join(x, end);
}

proof fn lemma_decimal_is_plain(n: nat)
    ensures
        is_plain(decimal(n)),
{
    lemma_decimal(n);
    assert forall|i: int| 0 <= i < decimal(n).len() implies decimal(n)[i] != ESCAPE by {
        assert(is_digit(decimal(n)[i], 10));
    }
}

proof fn lemma_client_row_closed(id: PortId, p: PortView)
    ensures
        row_closed(client_row(id, p)),
{
    let head = "    "@ + ANSI_GREEN@ + "◦"@ + ANSI_RESET@;
    lemma_reset_closes("    "@ + ANSI_GREEN@ + "◦"@);
    lemma_decimal_is_plain(id as nat);
    lemma_decimal_is_plain(p.sock as nat);
    lemma_decimal_is_plain((-(p.sock as int)) as nat);
    reveal_strlit(" id=");
    reveal_strlit(" fd=");
    let a = padded_right(decimal(id as nat), 3);
    let b = padded_right(decimal_signed(p.sock as int), 3);
    lemma_plain_end_closes(head, " id="@);
    lemma_plain_end_closes(head + " id="@, a);
    lemma_plain_end_closes(head + " id="@ + a, " fd="@);
    lemma_plain_end_closes(head + " id="@ + a + " fd="@, b);
    lemma_traffic_closed(p.rx_bytes, p.tx_bytes);
}

proof fn lemma_traffic_closed(rx: u64, tx: u64)
    ensures
        !in_escape(traffic(rx, tx)),
{
    lemma_reset_closes(
        padded_left(bytes_text(rx), TRAFFIC_VALUE_WIDTH as nat) + ANSI_BLUE@ + "⇣"@ + ANSI_RESET@
            + " "@ + padded_left(bytes_text(tx), TRAFFIC_VALUE_WIDTH as nat) + ANSI_YELLOW@
            + "⇡"@,
    );
}

proof fn lemma_channel_text_closed(
    color: Seq<char>,
    icon: Seq<char>,
    name: Seq<char>,
    space: Seq<char>,
    port: u16,
    clients: nat,
)
    ensures
        !in_escape(channel_text(color, icon, name, space, port, clients)),
{
    let head = color + icon + ANSI_RESET@ + " "@ + ANSI_BOLD@ + name + ANSI_RESET@ + space
        + "tcp://localhost:"@ + decimal(port as nat) + "  "@;
    let count = (if clients == 0 {
        ANSI_DIM@
    } else {
        ANSI_GREEN@
    }) + decimal(clients) + " connected "@ + (if clients == 1 {
        "client"@
    } else {
        "clients"@
    });
    assert(client_count(clients) == count + ANSI_RESET@);
    assert(head + client_count(clients) =~= (head + count) + ANSI_RESET@);
    lemma_reset_closes(head + count);
}

proof fn lemma_channel_closed(
    ports: Map<PortId, PortView>,
    text: Seq<char>,
    role: Seq<char>,
    ids: Seq<PortId>,
    k: int,
)
    requires
        !in_escape(text),
        0 <= k < channel_rows(ports, text, role, ids).len(),
    ensures
        row_closed(channel_rows(ports, text, role, ids)[k]),
{
    let rows = channel_rows(ports, text, role, ids);
    let (rx, tx) = totals(ports, ids);
    lemma_traffic_closed(rx, tx);
    if k == 1 {
        assert(rows[1] == clients_head(role));
        lemma_reset_closes("  "@ + ANSI_DIM@ + role + " clients"@);
    } else if k >= 2 {
        let id = present(ports, ids)[k - 2];
        assert(rows[k] == client_row(id, ports[id]));
        lemma_client_row_closed(id, ports[id]);
    }
}

/// The status display is aligned: whatever the state, all lines of the box are equally wide
/// on the screen.
pub proof fn lemma_status_is_aligned(
    s: ProxyView,
    device: Seq<char>,
    baud: Seq<char>,
    console_port: u16,
    gdb_port: u16,
    k: int,
)
    requires
        0 <= k < box_lines(s.status_rows(device, baud, console_port, gdb_port)).len(),
    ensures
        ({
            let rows = s.status_rows(device, baud, console_port, gdb_port);
            width(box_lines(rows)[k]) == inner_width(rows) + 4
        }),
{
    let rows = s.status_rows(device, baud, console_port, gdb_port);
    let console = s.console_clients();
    let gdb = s.gdb_clients();
    let text1 = channel_text(
        ANSI_BLUE@,
        "▣"@,
        "Console"@,
        "    "@,
        console_port,
        console.len(),
    );
    let text2 = channel_text(ANSI_YELLOW@, "◆"@, "KGDB"@, "       "@, gdb_port, gdb.len());
    let rows1 = channel_rows(s.ports, text1, "console"@, console);
    let rows2 = channel_rows(s.ports, text2, "kgdb"@, gdb);
    lemma_channel_text_closed(
        ANSI_BLUE@,
        "▣"@,
        "Console"@,
        "    "@,
        console_port,
        console.len(),
    );
    lemma_channel_text_closed(ANSI_YELLOW@, "◆"@, "KGDB"@, "       "@, gdb_port, gdb.len());
    assert forall|i: int| 0 <= i < rows.len() implies row_closed(#[trigger] rows[i]) by {
        if i == 0 {
            reveal_strlit("       serial-split");
            let head = ANSI_GREEN@ + "●"@ + ANSI_RESET@ + " "@ + ANSI_BOLD@ + "Mode"@;
            lemma_reset_closes(head);
            lemma_plain_end_closes(head + ANSI_RESET@, "       serial-split"@);
        } else if i == 1 {
            lemma_serial_row_closed(
                device,
                baud,
                if s.has(s.remote_port_id) {
                    Some(s.ports[s.remote_port_id])
                } else {
                    None
                },
            );
        } else if i < 2 + rows1.len() {
            assert(rows[i] == rows1[i - 2]);
            lemma_channel_closed(s.ports, text1, "console"@, console, i - 2);
        } else {
            assert(rows[i] == rows2[i - 2 - rows1.len()]);
            lemma_channel_closed(s.ports, text2, "kgdb"@, gdb, i - 2 - rows1.len());
        }
    }
    lemma_box_is_aligned(rows, k);
}

proof fn lemma_serial_row_closed(device: Seq<char>, baud: Seq<char>, serial: Option<PortView>)
    ensures
        row_closed(serial_row(device, baud, serial)),
{
    let lost = |name: Seq<char>|
        ANSI_RED@ + "✕"@ + ANSI_RESET@ + " "@ + ANSI_BOLD@ + "Serial"@ + ANSI_RESET@ + "     "@
            + ANSI_RED@ + name + ANSI_RESET@ + " @ "@ + baud + " baud  "@ + ANSI_RED@
            + "disconnected"@;
    match serial {
        Some(p) => {
            lemma_traffic_closed(p.rx_bytes, p.tx_bytes);
            lemma_reset_closes(lost(p.name));
            lemma_reset_closes(
                ANSI_MAGENTA@ + "⌁"@ + ANSI_RESET@ + " "@ + ANSI_BOLD@ + "Serial"@ + ANSI_RESET@
                    + "     "@ + ANSI_YELLOW@ + p.name + ANSI_RESET@ + " @ "@ + baud + " baud  "@
                    + ANSI_DIM@ + "fd="@ + decimal_signed(p.sock as int),
            );
        },
        None => {
            lemma_reset_closes(lost(device));
        },
    }
}

proof fn lemma_bytes_text_is_plain(n: u64)
    ensures
        is_plain(bytes_text(n)),
        n < KIB ==> bytes_text(n).len() <= TRAFFIC_VALUE_WIDTH,
{
    reveal_strlit(".");
    reveal_strlit(" GiB");
    reveal_strlit(" MiB");
    reveal_strlit(" KiB");
    reveal_strlit(" B");
    lemma_decimal_is_plain(n as nat);
    let unit = if n >= GIB {
        GIB
    } else if n >= MIB {
        MIB
    } else {
        KIB
    };
    let tenths = rounded(as_double(n as nat) * 10, unit as nat);
    lemma_decimal_is_plain(tenths / 10);
    lemma_decimal_is_plain(tenths % 10);
    if n < KIB {
        reveal_with_fuel(decimal, 5);
    }
}

/// Traffic columns line up: the amounts are padded, so that rows whose amounts are below one
/// kibibyte have traffic of one width, and with it their arrows in the same columns.
pub proof fn lemma_traffic_columns_line_up(rx: u64, tx: u64)
    ensures
        ({
            let a = padded_left(bytes_text(rx), TRAFFIC_VALUE_WIDTH as nat);
            let b = padded_left(bytes_text(tx), TRAFFIC_VALUE_WIDTH as nat);
            width(traffic(rx, tx)) == a.len() + b.len() + 3
        }),
        rx < KIB && tx < KIB ==> width(traffic(rx, tx)) == 15,
{
    lemma_colors();
    lemma_bytes_text_is_plain(rx);
    lemma_bytes_text_is_plain(tx);
    reveal_strlit("⇣");
    reveal_strlit("⇡");
    reveal_strlit(" ");
    let a = padded_left(bytes_text(rx), TRAFFIC_VALUE_WIDTH as nat);
    let b = padded_left(bytes_text(tx), TRAFFIC_VALUE_WIDTH as nat);
    assert(is_plain(a) && is_plain(b));
    lemma_wide_plain(a);
    lemma_wide_plain(b);
    lemma_wide_plain("⇣"@);
    lemma_wide_plain("⇡"@);
    lemma_wide_plain(" "@);
    let n = a.len();
    let m = b.len();
    let a1 = a + ANSI_BLUE@;
    lemma_wide_join(a, n, ANSI_BLUE@, 0);
    let a2 = a1 + "⇣"@;
    lemma_wide_join(a1, n, "⇣"@, 1);
    let a3 = a2 + ANSI_RESET@;
    lemma_wide_join(a2, n + 1, ANSI_RESET@, 0);
    let a4 = a3 + " "@;
    lemma_wide_join(a3, n + 1, " "@, 1);
    let a5 = a4 + b;
    lemma_wide_join(a4, n + 2, b, m);
    let a6 = a5 + ANSI_YELLOW@;
    lemma_wide_join(a5, n + 2 + m, ANSI_YELLOW@, 0);
    let a7 = a6 + "⇡"@;
    lemma_wide_join(a6, n + 2 + m, "⇡"@, 1);
    lemma_wide_join(a7, n + 3 + m, ANSI_RESET@, 0);
}

} // verus!
