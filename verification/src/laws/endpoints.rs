//! Laws of what is written on the command line: numbers, addresses and endpoints.
use vstd::prelude::*;
use crate::cli::port_number;
use crate::endpoint::{
    bind_parts, ipv4, known_host, local_parts, octet, remote_parts, split_all, RemoteKindView,
};
use crate::number::{
    all_digits, decimal, digit_value, digits_value, is_digit, lemma_decimal, lemma_decimal_digits,
    lemma_decimal_is_unique, lemma_decimal_leading, lemma_decimal_reads_back, number_in, pow10,
    unsigned_part,
};
use crate::text::{
    has_prefix, lemma_first_at, lemma_first_at_concat, lemma_first_at_none,
    lemma_split_first, split_first,
};

verus! {

/// Four numbers between dots.
pub open spec fn dotted(a: nat, b: nat, c: nat, d: nat) -> Seq<char> {
    decimal(a) + seq!['.'] + (decimal(b) + seq!['.'] + (decimal(c) + seq!['.'] + decimal(d)))
}

/// What is no digit does not occur in a number.
pub proof fn lemma_digits_lack(n: nat, c: char)
    requires
        !('0' <= c <= '9'),
    ensures
        !decimal(n).contains(c),
        forall|i: int| 0 <= i < decimal(n).len() ==> decimal(n)[i] != c,
{
    lemma_decimal(n);
    assert forall|i: int| 0 <= i < decimal(n).len() implies decimal(n)[i] != c by {
        assert(is_digit(decimal(n)[i], 10));
    }
}

/// Text is cut where its parts were joined.
pub proof fn lemma_split_joined(left: Seq<char>, c: char, right: Seq<char>)
    requires
        !left.contains(c),
    ensures
        split_first(left + seq![c] + right, c) == Some((left, right)),
{
    let s = left + seq![c] + right;
    assert forall|i: int| 0 <= i < left.len() implies left[i] != c by {
        assert(left.contains(left[i]));
    }
    lemma_first_at_concat(left, c, right, 0);
    assert(s.take(left.len() as int) =~= left);
    assert(s.skip(left.len() as int + 1) =~= right);
}

/// Text without the separator is not cut.
pub proof fn lemma_split_lacking(s: Seq<char>, c: char)
    requires
        !s.contains(c),
    ensures
        split_first(s, c) is None,
{
    assert forall|i: int| 0 <= i < s.len() implies s[i] != c by {
        assert(s.contains(s[i]));
    }
    lemma_first_at_none(s, c, 0);
}

proof fn lemma_octet(n: nat)
    requires
        n < 256,
    ensures
        octet(decimal(n)) == Some(n as int),
{
    lemma_decimal(n);
    lemma_decimal_leading(n);
    assert(pow10(3) == 1000) by {
        reveal_with_fuel(pow10, 4);
    }
    lemma_decimal_digits(n, 3);
    assert forall|i: int| 0 <= i < decimal(n).len() implies #[trigger] is_digit(
        decimal(n)[i],
        10,
    ) by {
    }
}

proof fn lemma_split_dotted(a: nat, b: nat, c: nat, d: nat)
    ensures
        split_all(dotted(a, b, c, d), '.') == seq![decimal(a), decimal(b), decimal(c), decimal(d)],
{
    lemma_digits_lack(a, '.');
    lemma_digits_lack(b, '.');
    lemma_digits_lack(c, '.');
    lemma_digits_lack(d, '.');
    let s3 = decimal(c) + seq!['.'] + decimal(d);
    let s2 = decimal(b) + seq!['.'] + s3;
    let s1 = dotted(a, b, c, d);
    lemma_split_lacking(decimal(d), '.');
    lemma_split_joined(decimal(c), '.', decimal(d));
    lemma_split_joined(decimal(b), '.', s3);
    lemma_split_joined(decimal(a), '.', s2);
    assert(split_all(decimal(d), '.') =~= seq![decimal(d)]);
    assert(split_all(s3, '.') =~= seq![decimal(c), decimal(d)]);
    assert(split_all(s2, '.') =~= seq![decimal(b), decimal(c), decimal(d)]);
    assert(split_all(s1, '.') =~= seq![decimal(a), decimal(b), decimal(c), decimal(d)]);
}

/// A written address reads back: the first number is the most significant, and so on. The
/// same holds of a host that is given by its address, and of an address to bind before a port.
pub proof fn lemma_address_reads_back(a: nat, b: nat, c: nat, d: nat, port: Seq<char>)
    requires
        a < 256,
        b < 256,
        c < 256,
        d < 256,
    ensures
        ({
            let n = (a * 16777216 + b * 65536 + c * 256 + d) as u32;
            &&& ipv4(dotted(a, b, c, d)) == Some(n)
            &&& known_host(dotted(a, b, c, d)) == Some(n)
            &&& bind_parts(dotted(a, b, c, d) + seq![':'] + port) == Some((n, port))
        }),
{
    lemma_octet(a);
    lemma_octet(b);
    lemma_octet(c);
    lemma_octet(d);
    let s = dotted(a, b, c, d);
    let n = (a * 16777216 + b * 65536 + c * 256 + d) as u32;
    lemma_split_dotted(a, b, c, d);
    assert(ipv4(s) == Some(n));
    lemma_digits_lack(a, ':');
    lemma_digits_lack(b, ':');
    lemma_digits_lack(c, ':');
    lemma_digits_lack(d, ':');
    assert(!s.contains(':')) by {
        if s.contains(':') {
            let i = choose|i: int| 0 <= i < s.len() && s[i] == ':';
            let la = decimal(a).len() as int;
            let lb = decimal(b).len() as int;
            let lc = decimal(c).len() as int;
            if i < la {
                assert(decimal(a)[i] == ':');
            } else if i > la && i < la + 1 + lb {
                assert(decimal(b)[i - la - 1] == ':');
            } else if i > la + 1 + lb && i < la + lb + lc + 2 {
                assert(decimal(c)[i - la - lb - 2] == ':');
            } else if i > la + lb + lc + 2 {
                assert(decimal(d)[i - la - lb - lc - 3] == ':');
            }
        }
    }
    lemma_split_joined(s, ':', port);
    lemma_named_hosts();
    lemma_named_addresses();
    if s == "0"@ || s == "localhost"@ {
        lemma_split_lacking(s, '.');
        assert(split_all(s, '.').len() == 1);
    }
}

proof fn lemma_named_hosts()
    ensures
        !"0"@.contains('.'),
        !"localhost"@.contains('.'),
{
    reveal_strlit("0");
    reveal_strlit("localhost");
}

proof fn lemma_named_addresses()
    ensures
        "0.0.0.0"@ == dotted(0, 0, 0, 0),
        "127.0.0.1"@ == dotted(127, 0, 0, 1),
        ipv4("0.0.0.0"@) == Some(0u32),
        ipv4("127.0.0.1"@) == Some(0x7f000001u32),
{
    reveal_strlit("0.0.0.0");
    reveal_strlit("127.0.0.1");
    reveal_with_fuel(decimal, 4);
    assert(decimal(0) =~= seq!['0']);
    assert(decimal(1) =~= seq!['1']);
    assert(decimal(127) =~= seq!['1', '2', '7']);
    assert("0.0.0.0"@ =~= dotted(0, 0, 0, 0));
    assert("127.0.0.1"@ =~= dotted(127, 0, 0, 1));
    lemma_octet(0);
    lemma_octet(1);
    lemma_octet(127);
    lemma_split_dotted(0, 0, 0, 0);
    lemma_split_dotted(127, 0, 0, 1);
}

proof fn lemma_octet_is_decimal(s: Seq<char>)
    requires
        octet(s) is Some,
    ensures
        0 <= octet(s)->0 < 256,
        s == decimal(octet(s)->0 as nat),
{
    assert(all_digits(s, 10));
    lemma_decimal_is_unique(s);
}

/// Nothing else is an address: what is read as one is four numbers below 256 between dots,
/// each without leading zeros, and is the address of these numbers.
pub proof fn lemma_only_written_addresses_read(s: Seq<char>)
    requires
        ipv4(s) is Some,
    ensures
        exists|a: nat, b: nat, c: nat, d: nat|
            #![trigger dotted(a, b, c, d)]
            a < 256 && b < 256 && c < 256 && d < 256 && s == dotted(a, b, c, d) && ipv4(s) == Some(
                (a * 16777216 + b * 65536 + c * 256 + d) as u32,
            ),
{
    let parts = split_all(s, '.');
    lemma_octet_is_decimal(parts[0]);
    lemma_octet_is_decimal(parts[1]);
    lemma_octet_is_decimal(parts[2]);
    lemma_octet_is_decimal(parts[3]);
    let a = octet(parts[0])->0 as nat;
    let b = octet(parts[1])->0 as nat;
    let c = octet(parts[2])->0 as nat;
    let d = octet(parts[3])->0 as nat;
    lemma_split_all_joins(s, '.');
    let s1 = (split_first(s, '.')->0).1;
    let s2 = (split_first(s1, '.')->0).1;
    lemma_split_all_joins(s1, '.');
    lemma_split_all_joins(s2, '.');
    let s3 = (split_first(s2, '.')->0).1;
    lemma_split_all_joins(s3, '.');
    assert(s =~= dotted(a, b, c, d));
}

proof fn lemma_split_all_joins(s: Seq<char>, c: char)
    ensures
        split_all(s, c).len() >= 1,
        split_all(s, c).len() == 1 ==> split_all(s, c)[0] == s,
        split_all(s, c).len() > 1 ==> {
            let (left, right) = split_first(s, c)->0;
            &&& split_first(s, c) is Some
            &&& split_all(s, c)[0] == left
            &&& split_all(s, c).skip(1) == split_all(right, c)
            &&& s == left + seq![c] + right
            &&& forall|i: int|
                0 <= i < split_all(right, c).len() ==> #[trigger] split_all(right, c)[i] == split_all(
                    s,
                    c,
                )[i + 1]
        },
    decreases s.len(),
{
    lemma_split_first(s, c);
    lemma_first_at(s, c, 0);
    if let Some((left, right)) = split_first(s, c) {
        lemma_split_all_joins(right, c);
        assert(split_all(s, c).skip(1) =~= split_all(right, c));
        assert(s =~= left + seq![c] + right);
    }
}

/// The hosts that have an address of their own: zero is any address, the local host is
/// 127.0.0.1.
pub proof fn lemma_hosts_with_names()
    ensures
        known_host("0"@) == Some(0u32),
        known_host("0.0.0.0"@) == Some(0u32),
        known_host("localhost"@) == Some(0x7f000001u32),
        known_host("127.0.0.1"@) == Some(0x7f000001u32),
{
    lemma_named_hosts();
    lemma_named_addresses();
    reveal_strlit("0");
    reveal_strlit("0.0.0.0");
    reveal_strlit("localhost");
    reveal_strlit("127.0.0.1");
    assert("localhost"@.len() == 9 && "127.0.0.1"@.len() == 9 && "localhost"@[0] != "127.0.0.1"@[0]);
}

/// A host that is none of these and no address has to be looked up.
pub proof fn lemma_other_hosts_are_looked_up(host: Seq<char>)
    requires
        !host.contains('.'),
        host != "0"@,
        host != "localhost"@,
    ensures
        known_host(host) is None,
{
    reveal_strlit("0.0.0.0");
    reveal_strlit("127.0.0.1");
    assert("0.0.0.0"@[1] == '.');
    assert("127.0.0.1"@[3] == '.');
    assert("0.0.0.0"@.contains('.'));
    assert("127.0.0.1"@.contains('.'));
    lemma_split_lacking(host, '.');
    assert(split_all(host, '.').len() == 1);
}

/// A port without an address is bound on the local host alone.
pub proof fn lemma_plain_port_is_local(port: Seq<char>)
    requires
        !port.contains(':'),
    ensures
        bind_parts(port) == Some((0x7f000001u32, port)),
{
    lemma_split_lacking(port, ':');
}

/// What stands before the colon has to be an address.
pub proof fn lemma_bad_bind_address(address: Seq<char>, port: Seq<char>)
    requires
        !address.contains(':'),
        ipv4(address) is None,
    ensures
        bind_parts(address + seq![':'] + port) is None,
{
    lemma_split_joined(address, ':', port);
}

/// `n` in hexadecimal, without leading zeros.
pub open spec fn hexadecimal(n: nat) -> Seq<char>
    decreases n,
{
    if n < 16 {
        seq![hex_char(n)]
    } else {
        hexadecimal(n / 16).push(hex_char(n % 16))
    }
}

/// The character that writes the digit `d` in hexadecimal.
pub open spec fn hex_char(d: nat) -> char {
    if d < 10 {
        ('0' as nat + d) as char
    } else {
        ('a' as nat + d - 10) as char
    }
}

proof fn lemma_hexadecimal(n: nat)
    ensures
        hexadecimal(n).len() > 0,
        all_digits(hexadecimal(n), 16),
        digits_value(hexadecimal(n), 16) == n,
        hexadecimal(n)[0] != '+',
    decreases n,
{
    let h = hexadecimal(n);
    if n < 16 {
        assert(h.drop_last() =~= Seq::<char>::empty());
        assert(digits_value(h.drop_last(), 16) == 0);
        assert(digit_value(h[0]) == n);
    } else {
        let rest = hexadecimal(n / 16);
        lemma_hexadecimal(n / 16);
        assert(h.drop_last() =~= rest);
        assert(digit_value(h.last()) == n % 16);
        assert(h[0] == rest[0]);
        assert forall|i: int| 0 <= i < h.len() implies #[trigger] is_digit(h[i], 16) by {
            if i < rest.len() {
                assert(is_digit(rest[i], 16));
                assert(h[i] == rest[i]);
            }
        }
    }
}

/// Decimal output is positional: the last digit is the units, and a number below ten is its
/// digit.
pub proof fn lemma_decimal_is_positional(tens: nat, units: nat)
    requires
        units < 10,
    ensures
        tens > 0 ==> decimal(tens * 10 + units) == decimal(tens).push(
            ('0' as nat + units) as char,
        ),
        decimal(units) == seq![('0' as nat + units) as char],
{
    let n = tens * 10 + units;
    assert(n / 10 == tens && n % 10 == units);
}

/// Port numbers read back, in decimal and, behind `0x`, in hexadecimal, if they are below
/// 65536; larger ones are none.
pub proof fn lemma_port_numbers_read_back(n: nat)
    ensures
        port_number(decimal(n)) == if n < 65536 {
            Some(n as u16)
        } else {
            None
        },
        port_number(seq!['0', 'x'] + hexadecimal(n)) == if n < 65536 {
            Some(n as u16)
        } else {
            None
        },
{
    reveal_strlit("0x");
    let d = decimal(n);
    lemma_decimal(n);
    lemma_digits_lack(n, 'x');
    lemma_digits_lack(n, '+');
    if has_prefix(d, "0x"@) {
        assert(d.take(2)[1] == 'x');
        assert(d[1] == 'x');
    }
    assert(unsigned_part(d) == d);
    let h = hexadecimal(n);
    let s = seq!['0', 'x'] + h;
    lemma_hexadecimal(n);
    assert(s.take(2) =~= "0x"@);
    assert(s.skip(2) =~= h);
    assert(unsigned_part(h) == h);
}

/// Text with a character that is no digit is no number, and neither is empty text.
pub proof fn lemma_no_number(s: Seq<char>, i: int, max: int)
    requires
        s.len() == 0 || (0 <= i < s.len() && !('0' <= s[i] <= '9') && (s[i] != '+' || i > 0
            || s.len() == 1)),
    ensures
        number_in(s, 10, max) is None,
{
    let digits = unsigned_part(s);
    if s.len() > 0 {
        if s.len() > 1 && s[0] == '+' {
            assert(digits[i - 1] == s[i]);
            assert(!is_digit(digits[i - 1], 10));
        } else {
            assert(!is_digit(digits[i], 10));
        }
    }
}

/// A plus sign may stand before a number.
pub proof fn lemma_signed_number(n: nat, max: int)
    requires
        n <= max,
    ensures
        number_in(seq!['+'] + decimal(n), 10, max) == Some(n as int),
{
    lemma_decimal(n);
    lemma_decimal_reads_back(n, max);
    assert((seq!['+'] + decimal(n)).skip(1) =~= decimal(n));
}

/// A local endpoint has its parts back: the first plus sign comes before a script port, else
/// the first circumflex before a debugger port, and without either there is none.
pub proof fn lemma_local_endpoint_parts(main: Seq<char>, script: Seq<char>)
    requires
        !main.contains('+'),
    ensures
        local_parts(main + seq!['+'] + script) == (main, Some(script), false),
        !main.contains('^') ==> local_parts(main) == (main, None::<Seq<char>>, false),
        !main.contains('^') && !script.contains('+') ==> local_parts(main + seq!['^'] + script) == (
            main,
            Some(script),
            true,
        ),
{
    lemma_split_lacking(main, '+');
    lemma_split_joined(main, '+', script);
    if !main.contains('^') {
        lemma_split_lacking(main, '^');
    }
    if !main.contains('^') && !script.contains('+') {
        let s = main + seq!['^'] + script;
        lemma_split_joined(main, '^', script);
        assert(!s.contains('+')) by {
            if s.contains('+') {
                let i = choose|i: int| 0 <= i < s.len() && s[i] == '+';
                if i < main.len() {
                    assert(main[i] == '+');
                } else if i > main.len() {
                    assert(script[i - main.len() - 1] == '+');
                }
            }
        }
        lemma_split_lacking(s, '+');
    }
}

/// A remote endpoint is what it is written as: `udp:` with a port, or with a source port and a
/// port; `tcplisten:` with a port; `fifocon:` with a path; a path with or without a rate; and
/// else, where it begins with a digit, a TCP port.
pub proof fn lemma_remote_endpoint_kinds(a: Seq<char>, b: Seq<char>)
    requires
        !a.contains(':'),
        !a.contains(','),
    ensures
        remote_parts(seq!['u', 'd', 'p', ':'] + a) == (RemoteKindView::Udp { src: None, port: a }),
        remote_parts(seq!['u', 'd', 'p', ':'] + (a + seq![':'] + b)) == (RemoteKindView::Udp {
            src: Some(a),
            port: b,
        }),
        remote_parts("tcplisten:"@ + b) == (RemoteKindView::Listen { port: b }),
        remote_parts("fifocon:"@ + b) == (RemoteKindView::FifoCon { path: b }),
        remote_parts(seq!['/'] + a) == (RemoteKindView::Serial { path: seq!['/'] + a, baud: None }),
        remote_parts((seq!['/'] + a) + seq![','] + b) == (RemoteKindView::Serial {
            path: seq!['/'] + a,
            baud: Some(b),
        }),
        b.len() > 0 && '0' <= b[0] <= '9' ==> remote_parts(b) == (RemoteKindView::Tcp { port: b }),
{
    reveal_strlit("udp:");
    reveal_strlit("tcplisten:");
    reveal_strlit("fifocon:");
    reveal_strlit("/");
    reveal_strlit("C");
    reveal_strlit("c");
    let udp = seq!['u', 'd', 'p', ':'];
    assert("udp:"@ =~= udp);
    let u1 = udp + a;
    assert(u1.take(4) =~= udp && u1.skip(4) =~= a);
    lemma_split_lacking(a, ':');
    let u2 = udp + (a + seq![':'] + b);
    assert(u2.take(4) =~= udp && u2.skip(4) =~= a + seq![':'] + b);
    lemma_split_joined(a, ':', b);
    let l = "tcplisten:"@ + b;
    assert(l.take(10) =~= "tcplisten:"@ && l.skip(10) =~= b);
    if has_prefix(l, "udp:"@) {
        assert(l.take(4)[0] == 'u');
    }
    let f = "fifocon:"@ + b;
    assert(f.take(8) =~= "fifocon:"@ && f.skip(8) =~= b);
    if has_prefix(f, "udp:"@) {
        assert(f.take(4)[0] == 'u');
    }
    if has_prefix(f, "tcplisten:"@) {
        assert(f.take(10)[0] == 't');
    }
    let path = seq!['/'] + a;
    assert(!path.contains(',')) by {
        if path.contains(',') {
            let i = choose|i: int| 0 <= i < path.len() && path[i] == ',';
            assert(a[i - 1] == ',');
        }
    }
    lemma_split_lacking(path, ',');
    lemma_split_joined(path, ',', b);
    lemma_kind_by_first(path);
    lemma_kind_by_first(path + seq![','] + b);
    assert(path.take(1) =~= "/"@);
    assert((path + seq![','] + b).take(1) =~= "/"@);
    if b.len() > 0 && '0' <= b[0] <= '9' {
        lemma_kind_by_first(b);
    }
}

/// The first character tells forms of endpoints apart.
pub proof fn lemma_kind_by_first(s: Seq<char>)
    requires
        s.len() > 0,
    ensures
        s[0] != 'u' ==> !has_prefix(s, "udp:"@),
        s[0] != 't' ==> !has_prefix(s, "tcplisten:"@),
        s[0] != 'f' ==> !has_prefix(s, "fifocon:"@),
        s[0] != '/' ==> !has_prefix(s, "/"@),
        s[0] != 'C' ==> !has_prefix(s, "C"@),
        s[0] != 'c' ==> !has_prefix(s, "c"@),
{
    reveal_strlit("udp:");
    reveal_strlit("tcplisten:");
    reveal_strlit("fifocon:");
    reveal_strlit("/");
    reveal_strlit("C");
    reveal_strlit("c");
    if has_prefix(s, "udp:"@) {
        assert(s.take(4)[0] == s[0]);
    }
    if has_prefix(s, "tcplisten:"@) {
        assert(s.take(10)[0] == s[0]);
    }
    if has_prefix(s, "fifocon:"@) {
        assert(s.take(8)[0] == s[0]);
    }
    assert(s.take(1)[0] == s[0]);
}

/// Letters count as digits of a hexadecimal number in either case.
pub proof fn lemma_letters_are_digits(k: nat)
    requires
        k < 6,
    ensures
        digit_value(('a' as nat + k) as char) == 10 + k,
        digit_value(('A' as nat + k) as char) == 10 + k,
{
}

} // verus!
