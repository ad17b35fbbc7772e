//! Endpoints as they are written on the command line: local ports with their script ports,
//! and remotes of every kind.
use vstd::prelude::*;
use crate::number::{digits_value, is_digit, number_in, parse_number};
use crate::text::{
    chars_of, has_prefix, lemma_first_at, split_first, split_once, starts_with, str_eq,
    strip_prefix,
};

verus! {

/// The address of this host.
pub const LOCALHOST: u32 = 0x7f000001;

/// The address that stands for any address.
pub const UNSPECIFIED: u32 = 0;

/// `s` cut at each `c`.
pub open spec fn split_all(s: Seq<char>, c: char) -> Seq<Seq<char>>
    decreases s.len(),
{
    proof {
        lemma_first_at(s, c, 0);
    }
    match split_first(s, c) {
        Some((left, right)) => seq![left] + split_all(right, c),
        None => seq![s],
    }
}

/// The number that one part of an IPv4 address writes: one to three digits without a leading
/// zero, at most 255.
pub open spec fn octet(s: Seq<char>) -> Option<int> {
    if 1 <= s.len() <= 3 && (forall|i: int| 0 <= i < s.len() ==> #[trigger] is_digit(s[i], 10))
        && (s.len() > 1 ==> s[0] != '0') && digits_value(s, 10) <= 255 {
        Some(digits_value(s, 10))
    } else {
        None
    }
}

/// The IPv4 address that `s` writes: four numbers between dots, the first the most
/// significant.
pub open spec fn ipv4(s: Seq<char>) -> Option<u32> {
    let parts = split_all(s, '.');
    if parts.len() == 4 && octet(parts[0]) is Some && octet(parts[1]) is Some && octet(
        parts[2],
    ) is Some && octet(parts[3]) is Some {
        Some(
            (((octet(parts[0])->0 * 256 + octet(parts[1])->0) * 256 + octet(parts[2])->0) * 256
                + octet(parts[3])->0) as u32,
        )
    } else {
        None
    }
}

/// The address of the host `host`, where it is known without asking.
pub open spec fn known_host(host: Seq<char>) -> Option<u32> {
    if host == "0"@ || host == "0.0.0.0"@ {
        Some(UNSPECIFIED)
    } else if host == "127.0.0.1"@ || host == "localhost"@ {
        Some(LOCALHOST)
    } else {
        ipv4(host)
    }
}

fn parse_octet(s: &str) -> (r: Option<u32>)
    ensures
        match r {
            Some(n) => octet(s@) == Some(n as int) && n <= 255,
            None => octet(s@) is None,
        },
{
    let v = chars_of(s);
    if v.len() == 0 || v.len() > 3 {
        return None;
    }
    if v.len() > 1 && v[0] == '0' {
        return None;
    }
    if v[0] == '+' {
        assert(!is_digit(s@[0], 10));
        return None;
    }
    parse_number(s, 10, 255)
}

/// The IPv4 address that `s` writes.
pub fn parse_ipv4(s: &str) -> (r: Option<u32>)
    ensures
        r == ipv4(s@),
{
    let ghost parts = split_all(s@, '.');
    let (a, s1) = match split_once(s, '.') {
        Some(p) => p,
        None => {
            return None;
        },
    };
    let (b, s2) = match split_once(s1, '.') {
        Some(p) => p,
        None => {
            assert(split_all(s1@, '.').len() == 1);
            return None;
        },
    };
    let (c, d) = match split_once(s2, '.') {
        Some(p) => p,
        None => {
            assert(split_all(s2@, '.').len() == 1);
            assert(split_all(s1@, '.').len() == 2);
            return None;
        },
    };
    proof {
        assert(split_all(s2@, '.') =~= seq![c@] + split_all(d@, '.'));
        assert(split_all(s1@, '.') =~= seq![b@] + split_all(s2@, '.'));
        assert(parts =~= seq![a@] + split_all(s1@, '.'));
        assert(parts.len() == 3 + split_all(d@, '.').len());
    }
    if split_once(d, '.').is_some() {
        assert(split_all(d@, '.').len() >= 2) by {
            let (l, r) = split_first(d@, '.')->0;
            assert(split_all(d@, '.') =~= seq![l] + split_all(r, '.'));
            lemma_split_all_nonempty(r, '.');
        }
        return None;
    }
    proof {
        assert(split_all(d@, '.') =~= seq![d@]);
        assert(parts[0] == a@ && parts[1] == b@ && parts[2] == c@ && parts[3] == d@);
    }
    match (parse_octet(a), parse_octet(b), parse_octet(c), parse_octet(d)) {
        (Some(a), Some(b), Some(c), Some(d)) => Some(((a * 256 + b) * 256 + c) * 256 + d),
        _ => None,
    }
}

proof fn lemma_split_all_nonempty(s: Seq<char>, c: char)
    ensures
        split_all(s, c).len() >= 1,
{
}

/// The address of the host `host`, where it is known without asking.
pub fn resolve_host(host: &str) -> (r: Option<u32>)
    ensures
        r == known_host(host@),
{
    if str_eq(host, "0") || str_eq(host, "0.0.0.0") {
        Some(UNSPECIFIED)
    } else if str_eq(host, "127.0.0.1") || str_eq(host, "localhost") {
        Some(LOCALHOST)
    } else {
        parse_ipv4(host)
    }
}

/// A local endpoint with its script port, if it has one, and whether that is a debugger port.
pub struct LocalParts {
    pub main: String,
    pub script: Option<String>,
    pub break_port: bool,
}

/// The parts of a local endpoint: a plus sign comes before a script port, else a circumflex
/// before a debugger port.
pub open spec fn local_parts(s: Seq<char>) -> (Seq<char>, Option<Seq<char>>, bool) {
    match split_first(s, '+') {
        Some((main, script)) => (main, Some(script), false),
        None => match split_first(s, '^') {
            Some((main, script)) => (main, Some(script), true),
            None => (s, None, false),
        },
    }
}

/// The parts of the local endpoint `s`.
pub fn parse_local_port(s: &str) -> (r: LocalParts)
    ensures
        (
            r.main@,
            match r.script {
                Some(script) => Some(script@),
                None => None,
            },
            r.break_port,
        ) == local_parts(s@),
{
    if let Some((main, script)) = split_once(s, '+') {
        return LocalParts {
            main: main.to_owned(),
            script: Some(script.to_owned()),
            break_port: false,
        };
    }
    if let Some((main, script)) = split_once(s, '^') {
        return LocalParts {
            main: main.to_owned(),
            script: Some(script.to_owned()),
            break_port: true,
        };
    }
    LocalParts { main: s.to_owned(), script: None, break_port: false }
}

/// What a local port is made of; the text holds the address to bind.
pub enum LocalKind {
    Stdin,
    Udp(String),
    Tcp(String),
}

/// What the local port `s` is made of.
pub fn local_kind(s: &str) -> (r: LocalKind)
    ensures
        match r {
            LocalKind::Stdin => s@ == "stdin"@,
            LocalKind::Udp(rest) => s@ != "stdin"@ && has_prefix(s@, "udp:"@) && rest@ == s@.skip(
                "udp:"@.len() as int,
            ),
            LocalKind::Tcp(rest) => s@ != "stdin"@ && !has_prefix(s@, "udp:"@) && rest@ == s@,
        },
{
    if str_eq(s, "stdin") {
        LocalKind::Stdin
    } else {
        match strip_prefix(s, "udp:") {
            Some(rest) => LocalKind::Udp(rest.to_owned()),
            None => LocalKind::Tcp(s.to_owned()),
        }
    }
}

/// An address to bind, and the text of the port number.
pub struct BindAddress {
    pub ip: u32,
    pub port: String,
}

/// The address to bind and the port that `s` writes: an address and a colon may stand before
/// the port, else it is this host alone. `None` where the address is none.
pub open spec fn bind_parts(s: Seq<char>) -> Option<(u32, Seq<char>)> {
    match split_first(s, ':') {
        Some((ip, port)) => match ipv4(ip) {
            Some(ip) => Some((ip, port)),
            None => None,
        },
        None => Some((LOCALHOST, s)),
    }
}

/// The address to bind that `s` writes.
pub fn bind_address(s: &str) -> (r: Result<BindAddress, String>)
    ensures
        match r {
            Ok(b) => bind_parts(s@) == Some((b.ip, b.port@)),
            Err(e) => bind_parts(s@) is None && e@
                == "Invalid bind address: invalid IPv4 address syntax"@,
        },
{
    match split_once(s, ':') {
        Some((ip, port)) => match parse_ipv4(ip) {
            Some(ip) => Ok(BindAddress { ip, port: port.to_owned() }),
            None => Err("Invalid bind address: invalid IPv4 address syntax".to_owned()),
        },
        None => Ok(BindAddress { ip: LOCALHOST, port: s.to_owned() }),
    }
}

/// What a remote is made of.
pub enum RemoteKind {
    /// A datagram socket, bound to the source port if there is one.
    Udp { src: Option<String>, port: String },
    /// A socket that the remote connects to.
    Listen { port: String },
    /// A FIFO on which local ports are selected.
    FifoCon { path: String },
    /// A serial device, with a rate if there is one.
    Serial { path: String, baud: Option<String> },
    /// A socket that is connected to the remote for each client.
    Tcp { port: String },
}

/// The abstract value of a [`RemoteKind`].
#[verifier::ext_equal]
pub enum RemoteKindView {
    Udp { src: Option<Seq<char>>, port: Seq<char> },
    Listen { port: Seq<char> },
    FifoCon { path: Seq<char> },
    Serial { path: Seq<char>, baud: Option<Seq<char>> },
    Tcp { port: Seq<char> },
}

impl View for RemoteKind {
    type V = RemoteKindView;

    open spec fn view(&self) -> RemoteKindView {
        match self {
            RemoteKind::Udp { src, port } => RemoteKindView::Udp {
                src: match src {
                    Some(src) => Some(src@),
                    None => None,
                },
                port: port@,
            },
            RemoteKind::Listen { port } => RemoteKindView::Listen { port: port@ },
            RemoteKind::FifoCon { path } => RemoteKindView::FifoCon { path: path@ },
            RemoteKind::Serial { path, baud } => RemoteKindView::Serial {
                path: path@,
                baud: match baud {
                    Some(baud) => Some(baud@),
                    None => None,
                },
            },
            RemoteKind::Tcp { port } => RemoteKindView::Tcp { port: port@ },
        }
    }
}

/// What the remote endpoint `s` is made of. A path, and a name that begins with the letter C,
/// is that of a serial device.
pub open spec fn remote_parts(s: Seq<char>) -> RemoteKindView {
    if has_prefix(s, "udp:"@) {
        let rest = s.skip("udp:"@.len() as int);
        match split_first(rest, ':') {
            Some((src, port)) => RemoteKindView::Udp { src: Some(src), port },
            None => RemoteKindView::Udp { src: None, port: rest },
        }
    } else if has_prefix(s, "tcplisten:"@) {
        RemoteKindView::Listen { port: s.skip("tcplisten:"@.len() as int) }
    } else if has_prefix(s, "fifocon:"@) {
        RemoteKindView::FifoCon { path: s.skip("fifocon:"@.len() as int) }
    } else if has_prefix(s, "/"@) || has_prefix(s, "C"@) || has_prefix(s, "c"@) {
        match split_first(s, ',') {
            Some((path, baud)) => RemoteKindView::Serial { path, baud: Some(baud) },
            None => RemoteKindView::Serial { path: s, baud: None },
        }
    } else {
        RemoteKindView::Tcp { port: s }
    }
}

/// What the remote endpoint `s` is made of.
pub fn remote_kind(s: &str) -> (r: RemoteKind)
    ensures
        r@ == remote_parts(s@),
{
    if let Some(rest) = strip_prefix(s, "udp:") {
        return match split_once(rest, ':') {
            Some((src, port)) => RemoteKind::Udp {
                src: Some(src.to_owned()),
                port: port.to_owned(),
            },
            None => RemoteKind::Udp { src: None, port: rest.to_owned() },
        };
    }
    if let Some(rest) = strip_prefix(s, "tcplisten:") {
        return RemoteKind::Listen { port: rest.to_owned() };
    }
    if let Some(rest) = strip_prefix(s, "fifocon:") {
        return RemoteKind::FifoCon { path: rest.to_owned() };
    }
    if starts_with(s, "/") || starts_with(s, "C") || starts_with(s, "c") {
        return match split_once(s, ',') {
            Some((path, baud)) => RemoteKind::Serial {
                path: path.to_owned(),
                baud: Some(baud.to_owned()),
            },
            None => RemoteKind::Serial { path: s.to_owned(), baud: None },
        };
    }
    RemoteKind::Tcp { port: s.to_owned() }
}

/// The rate of the serial device `path` that `baud` writes, if it is given, or the reason why
/// the device cannot be used.
pub fn serial_baud(path: &str, baud: Option<&str>) -> (r: Result<Option<u32>, String>)
    ensures
        match r {
            Ok(rate) => has_prefix(path@, "/"@) && match (baud, rate) {
                (Some(b), Some(n)) => number_in(b@, 10, u32::MAX as int) == Some(n as int),
                (None, None) => true,
                _ => false,
            },
            Err(e) => if !has_prefix(path@, "/"@) {
                e@ == "Unsupported port path: "@ + path@
            } else {
                baud matches Some(b) && number_in(b@, 10, u32::MAX as int) is None && e@
                    == "Invalid baud rate: "@ + b@
            },
        },
{
    if !starts_with(path, "/") {
        let mut e = "Unsupported port path: ".to_owned();
        e.append(path);
        return Err(e);
    }
    match baud {
        Some(b) => match parse_number(b, 10, u32::MAX) {
            Some(n) => Ok(Some(n)),
            None => {
                let mut e = "Invalid baud rate: ".to_owned();
                e.append(b);
                Err(e)
            },
        },
        None => Ok(None),
    }
}

} // verus!
