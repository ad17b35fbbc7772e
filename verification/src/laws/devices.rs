//! Laws of serial devices by name, of their lines, and of console selections.
use nix::sys::termios::BaudRate;
use vstd::prelude::*;
use crate::device::{
    candidates, lemma_candidates, lemma_candidates_in_order, lemma_siblings_in_order,
    numeric_prefix, open_error, sibling_index, siblings, text_le, trailing_digits,
};
use crate::number::{decimal, is_digit, lemma_decimal};
use crate::laws::endpoints::lemma_digits_lack;
use crate::remote::line_text;
use crate::rs232::{
    bits_per_second, console_defaults, known_rates, line_after, ControlBits, LineSettings, LineStep,
};
use crate::state::ProxyView;
use crate::text::has_prefix;

verus! {

/// Every character of `s` is one of the ten digits.
pub open spec fn is_number(s: Seq<char>) -> bool {
    forall|i: int| 0 <= i < s.len() ==> '0' <= #[trigger] s[i] <= '9'
}

proof fn lemma_trailing(name: Seq<char>, digits: Seq<char>)
    requires
        is_number(digits),
        name.len() > 0 ==> !('0' <= name.last() <= '9'),
    ensures
        trailing_digits(name + digits) == digits.len(),
    decreases digits.len(),
{
    let s = name + digits;
    if digits.len() == 0 {
        assert(s =~= name);
        if name.len() > 0 {
            assert(!is_digit(name.last(), 10));
        }
    } else {
        let rest = digits.drop_last();
        assert(s.drop_last() =~= name + rest);
        assert(s.last() == digits[digits.len() - 1]);
        assert forall|i: int| 0 <= i < rest.len() implies '0' <= #[trigger] rest[i] <= '9' by {
            assert(rest[i] == digits[i]);
        }
        lemma_trailing(name, rest);
    }
}

/// A device name is taken apart into what comes before its number and that number: the name
/// in front is found again whatever the number. A name without a number, and a number alone,
/// is none.
pub proof fn lemma_names_are_taken_apart(name: Seq<char>, digits: Seq<char>)
    requires
        is_number(digits),
        name.len() > 0 ==> !('0' <= name.last() <= '9'),
    ensures
        name.len() > 0 && digits.len() > 0 ==> numeric_prefix(name + digits) == Some(name),
        digits.len() == 0 ==> numeric_prefix(name + digits) is None,
        name.len() == 0 ==> numeric_prefix(name + digits) is None,
{
    lemma_trailing(name, digits);
    assert((name + digits).take(name.len() as int) =~= name);
}

/// The number of a device of a kind is the number behind the prefix; a name that does not
/// begin with the prefix, or has anything but a number behind it, is of another kind.
pub proof fn lemma_number_of_a_device(prefix: Seq<char>, n: nat, other: Seq<char>)
    ensures
        sibling_index(prefix, prefix + decimal(n)) == if n < 4294967296 {
            Some(n as u32)
        } else {
            None
        },
        sibling_index(prefix, prefix) is None,
        !is_number(other) ==> sibling_index(prefix, prefix + other) is None,
        !has_prefix(other, prefix) ==> sibling_index(prefix, other) is None,
{
    let s = prefix + decimal(n);
    assert(s.take(prefix.len() as int) =~= prefix);
    assert(s.skip(prefix.len() as int) =~= decimal(n));
    lemma_decimal(n);
    lemma_digits_lack(n, '+');
    assert(prefix.skip(prefix.len() as int) =~= Seq::<char>::empty());
    let t = prefix + other;
    assert(t.skip(prefix.len() as int) =~= other);
    if !is_number(other) {
        let i = choose|i: int| 0 <= i < other.len() && !('0' <= #[trigger] other[i] <= '9');
        assert(!is_digit(other[i], 10));
    }
}

/// Text is ordered by its first difference, and what is a beginning of it comes before it.
pub proof fn lemma_text_order(common: Seq<char>, x: char, a: Seq<char>, y: char, b: Seq<char>)
    ensures
        x < y ==> text_le(common + seq![x] + a, common + seq![y] + b),
        x < y ==> !text_le(common + seq![y] + b, common + seq![x] + a),
        text_le(common, common + b),
        b.len() > 0 ==> !text_le(common + b, common),
        text_le(common, common),
    decreases common.len(),
{
    let p = common + seq![x] + a;
    let q = common + seq![y] + b;
    if common.len() == 0 {
        assert(p[0] == x && q[0] == y);
    } else {
        let rest = common.skip(1);
        lemma_text_order(rest, x, a, y, b);
        assert(p.skip(1) =~= rest + seq![x] + a);
        assert(q.skip(1) =~= rest + seq![y] + b);
        assert((common + b).skip(1) =~= rest + b);
        assert(p[0] == common[0] && q[0] == common[0] && (common + b)[0] == common[0]);
    }
}

/// The paths `p` and `q` are those of entries with numbers, the first with the smaller number,
/// or with the same number and the smaller path.
pub open spec fn comes_before(
    prefix: Seq<char>,
    entries: Seq<(Seq<char>, Seq<char>)>,
    p: Seq<char>,
    q: Seq<char>,
) -> bool {
    exists|m: int, n: int|
        #![trigger entries[m], entries[n]]
        {
            let a = sibling_index(prefix, entries[m].0);
            let b = sibling_index(prefix, entries[n].0);
            &&& 0 <= m < entries.len() && 0 <= n < entries.len()
            &&& entries[m].1 == p && entries[n].1 == q
            &&& a is Some && b is Some
            &&& a->0 < b->0 || (a->0 == b->0 && text_le(p, q))
        }
}

/// What is tried to reopen a device: the configured path first, nothing twice, and besides
/// it exactly the entries whose names are the prefix and a number; these by number, and those
/// of one number by path.
pub proof fn lemma_what_is_tried(
    configured: Seq<char>,
    prefix: Seq<char>,
    entries: Seq<(Seq<char>, Seq<char>)>,
)
    ensures
        ({
            let tried = candidates(configured, prefix, entries);
            &&& tried.len() > 0 && tried[0] == configured
            &&& tried.no_duplicates()
            &&& forall|path: Seq<char>|
                #![trigger tried.contains(path)]
                tried.contains(path) <==> path == configured || exists|i: int|
                    0 <= i < entries.len() && sibling_index(prefix, (#[trigger] entries[i]).0)
                        is Some && entries[i].1 == path
            &&& forall|i: int, j: int|
                1 <= i < j < tried.len() ==> #[trigger] comes_before(
                    prefix,
                    entries,
                    tried[i],
                    tried[j],
                )
        }),
{
    lemma_candidates(configured, prefix, entries);
    lemma_siblings_in_order(prefix, entries);
    lemma_candidates_in_order(configured, prefix, entries);
    let tried = candidates(configured, prefix, entries);
    let found = siblings(prefix, entries);
    assert forall|path: Seq<char>|
        #![trigger tried.contains(path)]
        tried.contains(path) <==> path == configured || exists|i: int|
            0 <= i < entries.len() && sibling_index(prefix, (#[trigger] entries[i]).0) is Some
                && entries[i].1 == path by {
        if exists|k: int| 0 <= k < found.len() && (#[trigger] found[k]).1 == path {
            let k = choose|k: int| 0 <= k < found.len() && (#[trigger] found[k]).1 == path;
            assert(found.contains(found[k]));
            let i = choose|i: int|
                0 <= i < entries.len() && sibling_index(prefix, (#[trigger] entries[i]).0) == Some(
                    found[k].0,
                ) && entries[i].1 == found[k].1;
            assert(sibling_index(prefix, entries[i].0) is Some);
        }
        if exists|i: int|
            0 <= i < entries.len() && sibling_index(prefix, (#[trigger] entries[i]).0) is Some
                && entries[i].1 == path {
            let i = choose|i: int|
                0 <= i < entries.len() && sibling_index(prefix, (#[trigger] entries[i]).0) is Some
                    && entries[i].1 == path;
            let y = (sibling_index(prefix, entries[i].0)->0, path);
            assert(found.contains(y));
            let k = choose|k: int| 0 <= k < found.len() && found[k] == y;
            assert(found[k].1 == path);
        }
    }
    let at = choose|at: Seq<int>| crate::device::follows(tried, found, at);
    assert forall|i: int, j: int| 1 <= i < j < tried.len() implies #[trigger] comes_before(
        prefix,
        entries,
        tried[i],
        tried[j],
    ) by {
        let a = at[i - 1];
        let b = at[j - 1];
        assert(0 <= a < b < found.len());
        assert(tried[i] == found[a].1 && tried[j] == found[b].1);
        assert(found.contains(found[a]));
        assert(found.contains(found[b]));
        assert(crate::device::sibling_le(found[a], found[b]));
        let m = choose|m: int|
            0 <= m < entries.len() && sibling_index(prefix, (#[trigger] entries[m]).0) == Some(
                found[a].0,
            ) && entries[m].1 == found[a].1;
        let n = choose|n: int|
            0 <= n < entries.len() && sibling_index(prefix, (#[trigger] entries[n]).0) == Some(
                found[b].0,
            ) && entries[n].1 == found[b].1;
        assert(entries[m].1 == tried[i] && entries[n].1 == tried[j]);
        assert(sibling_index(prefix, entries[m].0) is Some);
    }
}

/// The message for a device that could not be opened names it and the error, and says what
/// helps exactly where permission is missing.
pub proof fn lemma_open_error_message(path: Seq<char>, text: Seq<char>)
    ensures
        open_error(path, text, false) == "Error opening serial device "@ + path + seq![':', ' ']
            + text + seq!['.'],
        open_error(path, text, true) == open_error(path, text, false)
            + " Run kgdb-console-splitting-proxy with sudo."@,
{
    reveal_strlit(": ");
    reveal_strlit(".");
    assert(": "@ =~= seq![':', ' ']);
    assert("."@ =~= seq!['.']);
    assert(open_error(path, text, false) =~= "Error opening serial device "@ + path + seq![
        ':',
        ' ',
    ] + text + seq!['.']);
    assert(open_error(path, text, true) =~= open_error(path, text, false)
        + " Run kgdb-console-splitting-proxy with sudo."@);
}

/// Each rate that can be set is set by the code that bears its number, and no other rate can
/// be set.
pub proof fn lemma_rates_are_named(rate: u32)
    ensures
        bits_per_second(BaudRate::B50) == 50,
        bits_per_second(BaudRate::B75) == 75,
        bits_per_second(BaudRate::B110) == 110,
        bits_per_second(BaudRate::B134) == 134,
        bits_per_second(BaudRate::B150) == 150,
        bits_per_second(BaudRate::B200) == 200,
        bits_per_second(BaudRate::B300) == 300,
        bits_per_second(BaudRate::B600) == 600,
        bits_per_second(BaudRate::B1200) == 1200,
        bits_per_second(BaudRate::B1800) == 1800,
        bits_per_second(BaudRate::B2400) == 2400,
        bits_per_second(BaudRate::B4800) == 4800,
        bits_per_second(BaudRate::B9600) == 9600,
        bits_per_second(BaudRate::B19200) == 19200,
        bits_per_second(BaudRate::B38400) == 38400,
        bits_per_second(BaudRate::B57600) == 57600,
        bits_per_second(BaudRate::B115200) == 115200,
        bits_per_second(BaudRate::B230400) == 230400,
        bits_per_second(BaudRate::B460800) == 460800,
        bits_per_second(BaudRate::B500000) == 500000,
        bits_per_second(BaudRate::B576000) == 576000,
        bits_per_second(BaudRate::B921600) == 921600,
        bits_per_second(BaudRate::B1000000) == 1000000,
        bits_per_second(BaudRate::B1152000) == 1152000,
        bits_per_second(BaudRate::B1500000) == 1500000,
        bits_per_second(BaudRate::B2000000) == 2000000,
        bits_per_second(BaudRate::B2500000) == 2500000,
        bits_per_second(BaudRate::B3000000) == 3000000,
        bits_per_second(BaudRate::B3500000) == 3500000,
        bits_per_second(BaudRate::B4000000) == 4000000,
        known_rates().contains(rate) <==> rate == 50 || rate == 75 || rate == 110 || rate == 134
            || rate == 150 || rate == 200 || rate == 300 || rate == 600 || rate == 1200
            || rate == 1800 || rate == 2400 || rate == 4800 || rate == 9600 || rate == 19200
            || rate == 38400 || rate == 57600 || rate == 115200 || rate == 230400
            || rate == 460800 || rate == 500000 || rate == 576000 || rate == 921600
            || rate == 1000000 || rate == 1152000 || rate == 1500000 || rate == 2000000
            || rate == 2500000 || rate == 3000000 || rate == 3500000 || rate == 4000000,
{
}

/// A line that was set up is raw: no input, output or local processing, and reads that do not
/// wait, whatever it had before. Setting the rate alone changes none of it.
pub proof fn lemma_line_is_raw(settings: LineSettings, bits: ControlBits, code: BaudRate)
    ensures
        ({
            let raw = line_after(LineStep::ConsoleDefaults, settings, bits);
            &&& raw.input_flags == 0 && raw.output_flags == 0 && raw.local_flags == 0
            &&& raw.vmin == 0 && raw.vtime == 0
            &&& raw.control_flags == console_defaults(settings, bits).control_flags
        }),
        line_after(LineStep::Rate(code), settings, bits) == settings,
        ({
            let one = line_after(LineStep::StopBits, settings, bits);
            &&& one.control_flags & bits.cstopb == 0
            &&& one.control_flags & !bits.cstopb == settings.control_flags & !bits.cstopb
            &&& one == (LineSettings { control_flags: one.control_flags, ..settings })
        }),
{
    let c = settings.control_flags;
    let b = bits.cstopb;
    assert((c & !b) & b == 0 && (c & !b) & !b == c & !b) by (bit_vector);
}

/// The bytes of text in the basic alphabet.
pub open spec fn ascii(s: Seq<char>) -> Seq<u8> {
    s.map_values(|c: char| c as u8)
}

proof fn lemma_line_text(s: Seq<char>)
    requires
        forall|i: int| 0 <= i < s.len() ==> 0 < (#[trigger] s[i] as int) < 128,
    ensures
        line_text(ascii(s)) == s,
    decreases s.len(),
{
    if s.len() == 0 {
        assert(line_text(ascii(s)) =~= s);
    } else {
        let rest = s.skip(1);
        assert forall|i: int| 0 <= i < rest.len() implies 0 < (#[trigger] rest[i] as int) < 128 by {
            assert(rest[i] == s[i + 1]);
        }
        lemma_line_text(rest);
        assert(ascii(s).skip(1) =~= ascii(rest));
        let c = s[0];
        assert(ascii(s)[0] == c as u8);
        assert((c as u8) as char == c);
        assert(seq![c] + rest =~= s);
    }
}

/// A console is selected by its port number on a line: the number is read when the line ends,
/// and the next line begins anew. A number that is no port, and a line without one, selects
/// port 0.
pub proof fn lemma_console_selection(s: ProxyView, n: nat, other: Seq<char>)
    ensures
        s.fifo_line == ascii(decimal(n)) ==> s.fifo_byte(10) == (
            ProxyView { fifo_line: Seq::empty(), ..s },
            Some(
                if n < 65536 {
                    n as u16
                } else {
                    0
                },
            ),
        ),
        s.fifo_line.len() == 0 ==> s.fifo_byte(10).1 == Some(0u16),
        s.fifo_byte(10).0 == (ProxyView { fifo_line: Seq::empty(), ..s }),
        s.fifo_line == ascii(other) && other.len() > 0 && (forall|i: int|
            0 <= i < other.len() ==> 32 < (#[trigger] other[i] as int) < 128) && !('0' <= other.last()
            <= '9') ==> s.fifo_byte(10).1 == Some(0u16),
{
    let d = decimal(n);
    lemma_decimal(n);
    lemma_digits_lack(n, '+');
    assert forall|i: int| 0 <= i < d.len() implies 0 < (#[trigger] d[i] as int) < 128 by {
        assert(is_digit(d[i], 10));
    }
    lemma_line_text(d);
    if s.fifo_line.len() == 0 {
        assert(line_text(s.fifo_line) =~= Seq::<char>::empty());
    }
    if s.fifo_line == ascii(other) && other.len() > 0 && (forall|i: int|
        0 <= i < other.len() ==> 32 < (#[trigger] other[i] as int) < 128) && !('0' <= other.last()
        <= '9') {
        lemma_line_text(other);
        crate::laws::endpoints::lemma_no_number(other, other.len() - 1, 65535);
    }
}

/// A byte that does not end the line is put behind the others and selects nothing; a return is
/// passed over, and a line that reaches fifty bytes is dropped.
pub proof fn lemma_selection_line_grows(s: ProxyView, b: u8)
    requires
        b != 10,
    ensures
        s.fifo_byte(b).1 is None,
        b == 13 ==> s.fifo_byte(b).0 == s,
        b != 13 && s.fifo_line.len() < 49 ==> s.fifo_byte(b).0 == (ProxyView {
            fifo_line: s.fifo_line.push(b),
            ..s
        }),
        b != 13 && s.fifo_line.len() == 49 ==> s.fifo_byte(b).0 == (ProxyView {
            fifo_line: Seq::empty(),
            ..s
        }),
{
}

} // verus!
