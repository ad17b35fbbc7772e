//! Laws of opening ports: the calls that an endpoint takes, with the numbers it was written
//! with.
use vstd::prelude::*;
use crate::cli::ExitView;
use crate::endpoint::ipv4;
use crate::laws::endpoints::{
    dotted, lemma_address_reads_back, lemma_digits_lack, lemma_kind_by_first,
    lemma_plain_port_is_local, lemma_port_numbers_read_back, lemma_remote_endpoint_kinds,
};
use crate::number::{decimal, lemma_decimal};
use crate::plan::{
    local_port_num, local_steps, local_type, remote_steps, MadeView, StepView,
};
use crate::port::PortType;
use crate::text::has_prefix;

verus! {

/// The steps that bind and listen on a stream socket.
pub open spec fn listening(ip: u32, port: u16) -> Seq<StepView> {
    seq![
        StepView::Socket { datagram: false, error: "Error opening TCP socket"@ },
        StepView::SocketOptions,
        StepView::Nonblocking,
        StepView::ReuseAddr,
        StepView::Bind { ip: Some(ip), port, error: "Error: on socket bind, address in use"@ },
        StepView::Listen { error: "Error: on listen()"@ },
    ]
}

/// The steps that bind a datagram socket.
pub open spec fn receiving(ip: u32, port: u16) -> Seq<StepView> {
    seq![
        StepView::Socket { datagram: true, error: "Error opening UDP socket"@ },
        StepView::Nonblocking,
        StepView::Bind { ip: Some(ip), port, error: "Error: on socket bind, address in use"@ },
    ]
}

proof fn lemma_starts(n: nat)
    ensures
        decimal(n).len() > 0,
        '0' <= decimal(n)[0] <= '9',
{
    lemma_decimal(n);
    assert(crate::number::is_digit(decimal(n)[0], 10));
}

proof fn lemma_is_tcp(text: Seq<char>)
    requires
        text.len() > 0,
        '0' <= text[0] <= '9',
    ensures
        text != "stdin"@,
        !has_prefix(text, "udp:"@),
{
    reveal_strlit("stdin");
    lemma_kind_by_first(text);
}

/// A local port that is a number listens on that port of this host alone; behind an address it
/// listens on that address.
pub proof fn lemma_local_port_listens(a: nat, b: nat, c: nat, d: nat, port: nat)
    requires
        a < 256,
        b < 256,
        c < 256,
        d < 256,
        port < 65536,
    ensures
        local_type(decimal(port)) == PortType::Tcp,
        local_port_num(decimal(port)) == Some(port as u16),
        local_steps(decimal(port)) == listening(0x7f000001, port as u16),
        ({
            let text = dotted(a, b, c, d) + seq![':'] + decimal(port);
            let ip = (a * 16777216 + b * 65536 + c * 256 + d) as u32;
            &&& local_type(text) == PortType::Tcp
            &&& local_port_num(text) == Some(port as u16)
            &&& local_steps(text) == listening(ip, port as u16)
        }),
{
    let text = dotted(a, b, c, d) + seq![':'] + decimal(port);
    let ip = (a * 16777216 + b * 65536 + c * 256 + d) as u32;
    lemma_starts(port);
    lemma_starts(a);
    lemma_is_tcp(decimal(port));
    assert(text[0] == decimal(a)[0]);
    lemma_is_tcp(text);
    lemma_port_numbers_read_back(port);
    lemma_digits_lack(port, ':');
    lemma_plain_port_is_local(decimal(port));
    lemma_address_reads_back(a, b, c, d, decimal(port));
    assert(local_steps(decimal(port)) =~= listening(0x7f000001, port as u16));
    assert(local_steps(text) =~= listening(ip, port as u16));
}

/// The same with datagrams, which are received without listening; and standard input, which
/// needs no address.
pub proof fn lemma_local_port_receives(a: nat, b: nat, c: nat, d: nat, port: nat)
    requires
        a < 256,
        b < 256,
        c < 256,
        d < 256,
        port < 65536,
    ensures
        local_type("udp:"@ + decimal(port)) == PortType::Udp,
        local_port_num("udp:"@ + decimal(port)) == Some(port as u16),
        local_steps("udp:"@ + decimal(port)) == receiving(0x7f000001, port as u16),
        ({
            let text = "udp:"@ + (dotted(a, b, c, d) + seq![':'] + decimal(port));
            let ip = (a * 16777216 + b * 65536 + c * 256 + d) as u32;
            &&& local_type(text) == PortType::Udp
            &&& local_port_num(text) == Some(port as u16)
            &&& local_steps(text) == receiving(ip, port as u16)
        }),
        local_type("stdin"@) == PortType::StdinOut,
        local_port_num("stdin"@) is None,
        local_steps("stdin"@) == seq![StepView::UseStdin, StepView::Nonblocking],
{
    let address = dotted(a, b, c, d) + seq![':'] + decimal(port);
    let ip = (a * 16777216 + b * 65536 + c * 256 + d) as u32;
    reveal_strlit("stdin");
    reveal_strlit("udp:");
    lemma_port_numbers_read_back(port);
    lemma_digits_lack(port, ':');
    lemma_plain_port_is_local(decimal(port));
    lemma_address_reads_back(a, b, c, d, decimal(port));
    let t1 = "udp:"@ + decimal(port);
    let t2 = "udp:"@ + address;
    assert(t1.take(4) =~= "udp:"@ && t1.skip(4) =~= decimal(port));
    assert(t2.take(4) =~= "udp:"@ && t2.skip(4) =~= address);
    assert(t1[0] != "stdin"@[0] && t2[0] != "stdin"@[0]);
    assert(local_steps(t1) =~= receiving(0x7f000001, port as u16));
    assert(local_steps(t2) =~= receiving(ip, port as u16));
}

/// A local port with a number that is too large ends the program, and one with something else
/// for an address is refused; nothing is bound.
pub proof fn lemma_bad_local_port(address: Seq<char>, port: nat)
    requires
        port >= 65536,
        address.len() > 0,
        '0' <= address[0] <= '9',
        !address.contains(':'),
        ipv4(address) is None,
    ensures
        local_steps(decimal(port)).last() == StepView::End(
            ExitView::Fail("Invalid port number: "@ + decimal(port)),
        ),
        local_port_num(decimal(port)) is None,
        forall|i: int|
            0 <= i < local_steps(decimal(port)).len() ==> !(#[trigger] local_steps(
                decimal(port),
            )[i] is Bind),
        ({
            let steps = local_steps(address + seq![':'] + decimal(port));
            &&& steps.last() == (StepView::Refuse {
                error: "Invalid bind address: invalid IPv4 address syntax"@,
            })
            &&& forall|i: int| 0 <= i < steps.len() ==> !(#[trigger] steps[i] is Bind)
        }),
{
    lemma_starts(port);
    lemma_is_tcp(decimal(port));
    lemma_port_numbers_read_back(port);
    lemma_digits_lack(port, ':');
    lemma_plain_port_is_local(decimal(port));
    let text = address + seq![':'] + decimal(port);
    assert(text[0] == address[0]);
    lemma_is_tcp(text);
    crate::laws::endpoints::lemma_bad_bind_address(address, decimal(port));
}

/// A TCP remote has its host looked up and is connected for each client; it has the port that
/// was written.
pub proof fn lemma_tcp_remote(host: Seq<char>, port: nat)
    ensures
        remote_steps(host, decimal(port)) == if port < 65536 {
            (
                seq![StepView::Resolve { host }],
                MadeView::Socket { port_type: PortType::Tcp, port: port as u16 },
            )
        } else {
            (
                seq![
                    StepView::End(ExitView::Fail("Invalid port number: "@ + decimal(port))),
                ],
                MadeView::Nothing,
            )
        },
{
    lemma_starts(port);
    lemma_port_numbers_read_back(port);
    lemma_remote_endpoint_kinds(Seq::empty(), decimal(port));
}

/// A datagram remote is connected to the port that was written; with a source port its socket
/// is bound to that port first, on any address.
pub proof fn lemma_udp_remote(host: Seq<char>, src: nat, port: nat)
    requires
        src < 65536,
        port < 65536,
    ensures
        remote_steps(host, "udp:"@ + decimal(port)) == (
            seq![
                StepView::Socket { datagram: true, error: "Could not allocate socket"@ },
                StepView::Nonblocking,
                StepView::Resolve { host },
                StepView::Connect { port: port as u16 },
            ],
            MadeView::Socket { port_type: PortType::Udp, port: port as u16 },
        ),
        remote_steps(host, "udp:"@ + (decimal(src) + seq![':'] + decimal(port))) == (
            seq![
                StepView::Socket { datagram: true, error: "Could not allocate socket"@ },
                StepView::Nonblocking,
                StepView::Bind {
                    ip: Some(0u32),
                    port: src as u16,
                    error: "Could not bind remote udp socket"@,
                },
                StepView::Resolve { host },
                StepView::Connect { port: port as u16 },
            ],
            MadeView::Socket { port_type: PortType::Udp, port: port as u16 },
        ),
{
    reveal_strlit("udp:");
    assert("udp:"@ =~= seq!['u', 'd', 'p', ':']);
    lemma_digits_lack(src, ':');
    lemma_digits_lack(src, ',');
    lemma_digits_lack(port, ':');
    lemma_digits_lack(port, ',');
    lemma_port_numbers_read_back(src);
    lemma_port_numbers_read_back(port);
    lemma_remote_endpoint_kinds(decimal(port), decimal(port));
    lemma_remote_endpoint_kinds(decimal(src), decimal(port));
    assert(remote_steps(host, "udp:"@ + decimal(port)).0 =~= seq![
        StepView::Socket { datagram: true, error: "Could not allocate socket"@ },
        StepView::Nonblocking,
        StepView::Resolve { host },
        StepView::Connect { port: port as u16 },
    ]);
    assert(remote_steps(host, "udp:"@ + (decimal(src) + seq![':'] + decimal(port))).0 =~= seq![
        StepView::Socket { datagram: true, error: "Could not allocate socket"@ },
        StepView::Nonblocking,
        StepView::Bind {
            ip: Some(0u32),
            port: src as u16,
            error: "Could not bind remote udp socket"@,
        },
        StepView::Resolve { host },
        StepView::Connect { port: port as u16 },
    ]);
}

/// A remote that connects by itself is listened for on the port that was written, on the
/// address of the host.
pub proof fn lemma_listening_remote(host: Seq<char>, port: nat)
    requires
        port < 65536,
    ensures
        remote_steps(host, "tcplisten:"@ + decimal(port)) == (
            seq![
                StepView::Socket { datagram: false, error: "Could not allocate socket"@ },
                StepView::ReuseAddr,
                StepView::Nonblocking,
                StepView::Resolve { host },
                StepView::Bind {
                    ip: None,
                    port: port as u16,
                    error: "Could not bind remote tcp listen socket"@,
                },
                StepView::Listen { error: "Error on listen"@ },
            ],
            MadeView::Socket { port_type: PortType::Listen, port: port as u16 },
        ),
{
    lemma_port_numbers_read_back(port);
    lemma_remote_endpoint_kinds(Seq::empty(), decimal(port));
    assert(remote_steps(host, "tcplisten:"@ + decimal(port)).0 =~= seq![
        StepView::Socket { datagram: false, error: "Could not allocate socket"@ },
        StepView::ReuseAddr,
        StepView::Nonblocking,
        StepView::Resolve { host },
        StepView::Bind {
            ip: None,
            port: port as u16,
            error: "Could not bind remote tcp listen socket"@,
        },
        StepView::Listen { error: "Error on listen"@ },
    ]);
}

/// A FIFO is made and opened at the path that was written.
pub proof fn lemma_fifo_remote(host: Seq<char>, path: Seq<char>)
    ensures
        remote_steps(host, "fifocon:"@ + path).1 == (MadeView::Fifo { path }),
        remote_steps(host, "fifocon:"@ + path).0 == seq![
            StepView::MakeFifo { path, error: "Error creating "@ + path + " fifo"@ },
            StepView::OpenFifo { path, error: "Error opening fifo"@ },
        ],
{
    lemma_remote_endpoint_kinds(Seq::empty(), path);
}

/// A serial device is opened at the path that was written, at the rate if one was; a rate that
/// is no number is refused.
pub proof fn lemma_serial_remote(host: Seq<char>, path: Seq<char>, rate: nat)
    requires
        !path.contains(':'),
        !path.contains(','),
    ensures
        ({
            let device = seq!['/'] + path;
            &&& remote_steps(host, device) == (
                seq![StepView::OpenSerial { path: device, baud: None }],
                MadeView::Serial { path: device, baud: None },
            )
            &&& rate < 4294967296 ==> remote_steps(host, device + seq![','] + decimal(rate)) == (
                seq![StepView::OpenSerial { path: device, baud: Some(rate as u32) }],
                MadeView::Serial { path: device, baud: Some(rate as u32) },
            )
            &&& rate >= 4294967296 ==> remote_steps(host, device + seq![','] + decimal(rate)) == (
                seq![StepView::Refuse { error: "Invalid baud rate: "@ + decimal(rate) }],
                MadeView::Nothing,
            )
        }),
{
    reveal_strlit("/");
    let device = seq!['/'] + path;
    lemma_remote_endpoint_kinds(path, decimal(rate));
    assert(device.take(1) =~= "/"@);
    lemma_decimal(rate);
    lemma_digits_lack(rate, '+');
}

/// A name that begins with the letter C is taken for a device and refused, since it is no
/// path.
pub proof fn lemma_device_without_path(host: Seq<char>, name: Seq<char>)
    requires
        name.len() > 0,
        name[0] == 'C' || name[0] == 'c',
        !name.contains(','),
    ensures
        remote_steps(host, name) == (
            seq![StepView::Refuse { error: "Unsupported port path: "@ + name }],
            MadeView::Nothing,
        ),
{
    reveal_strlit("C");
    reveal_strlit("c");
    lemma_kind_by_first(name);
    crate::laws::endpoints::lemma_split_lacking(name, ',');
    assert(name.take(1) =~= seq![name[0]]);
    assert("C"@ =~= seq!['C']);
    assert("c"@ =~= seq!['c']);
}

/// A source port that is none ends the program before anything is bound, and a rate that is no
/// number is refused.
pub proof fn lemma_bad_numbers_of_a_remote(
    host: Seq<char>,
    src: nat,
    port: Seq<char>,
    path: Seq<char>,
    rate: Seq<char>,
    k: int,
)
    requires
        src >= 65536,
        !path.contains(':'),
        !path.contains(','),
        0 <= k < rate.len(),
        !('0' <= rate[k] <= '9'),
        rate[k] != '+' || k > 0,
    ensures
        remote_steps(host, "udp:"@ + (decimal(src) + seq![':'] + port)) == (
            seq![
                StepView::Socket { datagram: true, error: "Could not allocate socket"@ },
                StepView::Nonblocking,
                StepView::End(ExitView::Fail("Invalid port number: "@ + decimal(src))),
            ],
            MadeView::Nothing,
        ),
        remote_steps(host, (seq!['/'] + path) + seq![','] + rate) == (
            seq![StepView::Refuse { error: "Invalid baud rate: "@ + rate }],
            MadeView::Nothing,
        ),
{
    reveal_strlit("udp:");
    reveal_strlit("/");
    assert("udp:"@ =~= seq!['u', 'd', 'p', ':']);
    lemma_digits_lack(src, ':');
    lemma_digits_lack(src, ',');
    lemma_port_numbers_read_back(src);
    lemma_remote_endpoint_kinds(decimal(src), port);
    assert(remote_steps(host, "udp:"@ + (decimal(src) + seq![':'] + port)).0 =~= seq![
        StepView::Socket { datagram: true, error: "Could not allocate socket"@ },
        StepView::Nonblocking,
        StepView::End(ExitView::Fail("Invalid port number: "@ + decimal(src))),
    ]);
    lemma_remote_endpoint_kinds(path, rate);
    let device = seq!['/'] + path;
    assert(device.take(1) =~= "/"@);
    crate::laws::endpoints::lemma_no_number(rate, k, u32::MAX as int);
}

} // verus!
