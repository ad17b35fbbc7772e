//! What it takes to open the local ports and the remote: the calls in their order, and what
//! is said where one of them fails.
use vstd::prelude::*;
use crate::cli::{bad_port, parse_port_number, port_number, CliExit, ExitView};
use crate::endpoint::{
    bind_address, bind_parts, local_kind, remote_kind, remote_parts, serial_baud, LocalKind,
    RemoteKind, RemoteKindView, UNSPECIFIED,
};
use crate::number::number_in;
use crate::port::PortType;
use crate::text::has_prefix;

verus! {

/// One call, or the end of the setup.
pub enum SetupStep {
    /// Take the standard input as the descriptor.
    UseStdin,
    /// Open a datagram or a stream socket as the descriptor.
    Socket { datagram: bool, error: String },
    /// Set the options of stream connections.
    SocketOptions,
    /// Let calls on the descriptor not wait.
    Nonblocking,
    /// Let the address be used again at once.
    ReuseAddr,
    /// Find the address of the remote host.
    Resolve { host: String },
    /// Bind the socket, to the address of the remote host where none is given.
    Bind { ip: Option<u32>, port: u16, error: String },
    /// Listen on the socket.
    Listen { error: String },
    /// Connect the socket to the remote host; that may fail.
    Connect { port: u16 },
    /// Make a FIFO, unless there is one.
    MakeFifo { path: String, error: String },
    /// Open the FIFO as the descriptor.
    OpenFifo { path: String, error: String },
    /// Open the serial device as the descriptor, at the rate if there is one.
    OpenSerial { path: String, baud: Option<u32> },
    /// The port cannot be opened.
    Refuse { error: String },
    /// The program ends.
    End(CliExit),
}

/// The abstract value of a [`SetupStep`].
#[verifier::ext_equal]
pub enum StepView {
    UseStdin,
    Socket { datagram: bool, error: Seq<char> },
    SocketOptions,
    Nonblocking,
    ReuseAddr,
    Resolve { host: Seq<char> },
    Bind { ip: Option<u32>, port: u16, error: Seq<char> },
    Listen { error: Seq<char> },
    Connect { port: u16 },
    MakeFifo { path: Seq<char>, error: Seq<char> },
    OpenFifo { path: Seq<char>, error: Seq<char> },
    OpenSerial { path: Seq<char>, baud: Option<u32> },
    Refuse { error: Seq<char> },
    End(ExitView),
}

impl View for SetupStep {
    type V = StepView;

    open spec fn view(&self) -> StepView {
        match self {
            SetupStep::UseStdin => StepView::UseStdin,
            SetupStep::Socket { datagram, error } => StepView::Socket {
                datagram: *datagram,
                error: error@,
            },
            SetupStep::SocketOptions => StepView::SocketOptions,
            SetupStep::Nonblocking => StepView::Nonblocking,
            SetupStep::ReuseAddr => StepView::ReuseAddr,
            SetupStep::Resolve { host } => StepView::Resolve { host: host@ },
            SetupStep::Bind { ip, port, error } => StepView::Bind {
                ip: *ip,
                port: *port,
                error: error@,
            },
            SetupStep::Listen { error } => StepView::Listen { error: error@ },
            SetupStep::Connect { port } => StepView::Connect { port: *port },
            SetupStep::MakeFifo { path, error } => StepView::MakeFifo {
                path: path@,
                error: error@,
            },
            SetupStep::OpenFifo { path, error } => StepView::OpenFifo {
                path: path@,
                error: error@,
            },
            SetupStep::OpenSerial { path, baud } => StepView::OpenSerial {
                path: path@,
                baud: *baud,
            },
            SetupStep::Refuse { error } => StepView::Refuse { error: error@ },
            SetupStep::End(exit) => StepView::End(exit@),
        }
    }
}

/// The abstract values of `v`.
pub open spec fn step_views(v: Seq<SetupStep>) -> Seq<StepView> {
    v.map_values(|s: SetupStep| s@)
}

/// A local port or script port to be opened.
pub struct LocalPlan {
    pub port_type: PortType,
    pub port_num: Option<u16>,
    pub steps: Vec<SetupStep>,
}

/// What it takes to bind a socket to the address `address`: nothing is bound where the
/// address or the port number is none.
pub open spec fn bind_steps(address: Seq<char>, datagram: bool) -> Seq<StepView> {
    match bind_parts(address) {
        Some((ip, port)) => match port_number(port) {
            Some(port) => {
                let bind = StepView::Bind {
                    ip: Some(ip),
                    port,
                    error: "Error: on socket bind, address in use"@,
                };
                if datagram {
                    seq![bind]
                } else {
                    seq![
                        StepView::ReuseAddr,
                        bind,
                        StepView::Listen { error: "Error: on listen()"@ },
                    ]
                }
            },
            None => seq![StepView::End(bad_port(port))],
        },
        None => seq![
            StepView::Refuse { error: "Invalid bind address: invalid IPv4 address syntax"@ },
        ],
    }
}

/// The port number in the address `address`, if the address can be bound.
pub open spec fn bind_port(address: Seq<char>) -> Option<u16> {
    match bind_parts(address) {
        Some((_, port)) => port_number(port),
        None => None,
    }
}

/// What it takes to open the local port `text`.
pub open spec fn local_steps(text: Seq<char>) -> Seq<StepView> {
    if text == "stdin"@ {
        seq![StepView::UseStdin, StepView::Nonblocking]
    } else if has_prefix(text, "udp:"@) {
        seq![
            StepView::Socket { datagram: true, error: "Error opening UDP socket"@ },
            StepView::Nonblocking,
        ] + bind_steps(text.skip("udp:"@.len() as int), true)
    } else {
        seq![
            StepView::Socket { datagram: false, error: "Error opening TCP socket"@ },
            StepView::SocketOptions,
            StepView::Nonblocking,
        ] + bind_steps(text, false)
    }
}

/// What the local port `text` is.
pub open spec fn local_type(text: Seq<char>) -> PortType {
    if text == "stdin"@ {
        PortType::StdinOut
    } else if has_prefix(text, "udp:"@) {
        PortType::Udp
    } else {
        PortType::Tcp
    }
}

/// The number of the local port `text`, if it has one.
pub open spec fn local_port_num(text: Seq<char>) -> Option<u16> {
    if text == "stdin"@ {
        None
    } else if has_prefix(text, "udp:"@) {
        bind_port(text.skip("udp:"@.len() as int))
    } else {
        bind_port(text)
    }
}

fn push_bind_steps(steps: &mut Vec<SetupStep>, address: &str, datagram: bool) -> (r: Option<u16>)
    ensures
        step_views(final(steps)@) == step_views(old(steps)@) + bind_steps(address@, datagram),
        r == bind_port(address@),
{
    let ghost before = step_views(steps@);
    let bind = match bind_address(address) {
        Ok(bind) => bind,
        Err(error) => {
            steps.push(SetupStep::Refuse { error });
            assert(step_views(steps@) =~= before + bind_steps(address@, datagram));
            return None;
        },
    };
    let port = match parse_port_number(bind.port.as_str()) {
        Ok(port) => port,
        Err(exit) => {
            steps.push(SetupStep::End(exit));
            assert(step_views(steps@) =~= before + bind_steps(address@, datagram));
            return None;
        },
    };
    if !datagram {
        steps.push(SetupStep::ReuseAddr);
    }
    steps.push(
        SetupStep::Bind {
            ip: Some(bind.ip),
            port,
            error: "Error: on socket bind, address in use".to_owned(),
        },
    );
    if !datagram {
        steps.push(SetupStep::Listen { error: "Error: on listen()".to_owned() });
    }
    assert(step_views(steps@) =~= before + bind_steps(address@, datagram));
    Some(port)
}

/// What it takes to open the local port or script port `text`.
pub fn plan_local_port(text: &str) -> (r: LocalPlan)
    ensures
        r.port_type == local_type(text@),
        r.port_num == local_port_num(text@),
        step_views(r.steps@) == local_steps(text@),
{
    let mut steps: Vec<SetupStep> = Vec::new();
    match local_kind(text) {
        LocalKind::Stdin => {
            steps.push(SetupStep::UseStdin);
            steps.push(SetupStep::Nonblocking);
            assert(step_views(steps@) =~= local_steps(text@));
            LocalPlan { port_type: PortType::StdinOut, port_num: None, steps }
        },
        LocalKind::Udp(address) => {
            steps.push(
                SetupStep::Socket { datagram: true, error: "Error opening UDP socket".to_owned() },
            );
            steps.push(SetupStep::Nonblocking);
            assert(step_views(steps@) =~= local_steps(text@).take(2));
            let port_num = push_bind_steps(&mut steps, address.as_str(), true);
            assert(step_views(steps@) =~= local_steps(text@));
            LocalPlan { port_type: PortType::Udp, port_num, steps }
        },
        LocalKind::Tcp(address) => {
            steps.push(
                SetupStep::Socket { datagram: false, error: "Error opening TCP socket".to_owned() },
            );
            steps.push(SetupStep::SocketOptions);
            steps.push(SetupStep::Nonblocking);
            assert(step_views(steps@) =~= local_steps(text@).take(3));
            let port_num = push_bind_steps(&mut steps, address.as_str(), false);
            assert(step_views(steps@) =~= local_steps(text@));
            LocalPlan { port_type: PortType::Tcp, port_num, steps }
        },
    }
}

/// What a remote is, once it is open.
pub enum RemoteMade {
    /// A socket with a port number; a stream has no socket of its own.
    Socket { port_type: PortType, port: u16 },
    /// A FIFO.
    Fifo { path: String },
    /// A serial device.
    Serial { path: String, baud: Option<u32> },
    /// Nothing, because it cannot be opened.
    Nothing,
}

/// The abstract value of a [`RemoteMade`].
#[verifier::ext_equal]
pub enum MadeView {
    Socket { port_type: PortType, port: u16 },
    Fifo { path: Seq<char> },
    Serial { path: Seq<char>, baud: Option<u32> },
    Nothing,
}

impl View for RemoteMade {
    type V = MadeView;

    open spec fn view(&self) -> MadeView {
        match self {
            RemoteMade::Socket { port_type, port } => MadeView::Socket {
                port_type: *port_type,
                port: *port,
            },
            RemoteMade::Fifo { path } => MadeView::Fifo { path: path@ },
            RemoteMade::Serial { path, baud } => MadeView::Serial { path: path@, baud: *baud },
            RemoteMade::Nothing => MadeView::Nothing,
        }
    }
}

/// A remote to be opened.
pub struct RemotePortPlan {
    pub made: RemoteMade,
    pub steps: Vec<SetupStep>,
}

/// What a socket of the type `port_type` takes behind the socket itself, for the remote host
/// `host` and the port number `port`.
pub open spec fn socket_steps(port_type: PortType, host: Seq<char>, port: Seq<char>) -> Seq<StepView> {
    match port_number(port) {
        Some(n) => {
            let resolve = StepView::Resolve { host };
            if port_type == PortType::Udp {
                seq![resolve, StepView::Connect { port: n }]
            } else if port_type == PortType::Listen {
                seq![
                    resolve,
                    StepView::Bind {
                        ip: None,
                        port: n,
                        error: "Could not bind remote tcp listen socket"@,
                    },
                    StepView::Listen { error: "Error on listen"@ },
                ]
            } else {
                seq![resolve]
            }
        },
        None => seq![StepView::End(bad_port(port))],
    }
}

/// What a socket of the type `port_type` is, once it is open.
pub open spec fn socket_made(port_type: PortType, port: Seq<char>) -> MadeView {
    match port_number(port) {
        Some(port) => MadeView::Socket { port_type, port },
        None => MadeView::Nothing,
    }
}

/// The socket of a remote.
pub open spec fn remote_socket(datagram: bool) -> StepView {
    StepView::Socket { datagram, error: "Could not allocate socket"@ }
}

/// The rate of the serial device `path`, or why it cannot be used.
pub open spec fn serial_rate(path: Seq<char>, baud: Option<Seq<char>>) -> Result<
    Option<u32>,
    Seq<char>,
> {
    if !has_prefix(path, "/"@) {
        Err("Unsupported port path: "@ + path)
    } else {
        match baud {
            Some(b) => match number_in(b, 10, u32::MAX as int) {
                Some(n) => Ok(Some(n as u32)),
                None => Err("Invalid baud rate: "@ + b),
            },
            None => Ok(None),
        }
    }
}

/// What it takes to open the remote `text` on the host `host`, and what it then is.
pub open spec fn remote_steps(host: Seq<char>, text: Seq<char>) -> (Seq<StepView>, MadeView) {
    match remote_parts(text) {
        RemoteKindView::Udp { src, port } => {
            let start = seq![remote_socket(true), StepView::Nonblocking];
            let rest = socket_steps(PortType::Udp, host, port);
            let made = socket_made(PortType::Udp, port);
            match src {
                Some(src) => match port_number(src) {
                    Some(n) => (
                        start.push(
                            StepView::Bind {
                                ip: Some(UNSPECIFIED),
                                port: n,
                                error: "Could not bind remote udp socket"@,
                            },
                        ) + rest,
                        made,
                    ),
                    None => (start.push(StepView::End(bad_port(src))), MadeView::Nothing),
                },
                None => (start + rest, made),
            }
        },
        RemoteKindView::Listen { port } => (
            seq![remote_socket(false), StepView::ReuseAddr, StepView::Nonblocking] + socket_steps(
                PortType::Listen,
                host,
                port,
            ),
            socket_made(PortType::Listen, port),
        ),
        RemoteKindView::Tcp { port } => (
            socket_steps(PortType::Tcp, host, port),
            socket_made(PortType::Tcp, port),
        ),
        RemoteKindView::FifoCon { path } => (
            seq![
                StepView::MakeFifo { path, error: "Error creating "@ + path + " fifo"@ },
                StepView::OpenFifo { path, error: "Error opening fifo"@ },
            ],
            MadeView::Fifo { path },
        ),
        RemoteKindView::Serial { path, baud } => match serial_rate(path, baud) {
            Ok(rate) => (
                seq![StepView::OpenSerial { path, baud: rate }],
                MadeView::Serial { path, baud: rate },
            ),
            Err(error) => (seq![StepView::Refuse { error }], MadeView::Nothing),
        },
    }
}

fn push_socket_steps(steps: &mut Vec<SetupStep>, port_type: PortType, host: &str, port: &str) -> (r:
    RemoteMade)
    ensures
        step_views(final(steps)@) == step_views(old(steps)@) + socket_steps(
            port_type,
            host@,
            port@,
        ),
        r@ == socket_made(port_type, port@),
{
    let ghost before = step_views(steps@);
    let n = match parse_port_number(port) {
        Ok(n) => n,
        Err(exit) => {
            steps.push(SetupStep::End(exit));
            assert(step_views(steps@) =~= before + socket_steps(port_type, host@, port@));
            return RemoteMade::Nothing;
        },
    };
    steps.push(SetupStep::Resolve { host: host.to_owned() });
    if port_type == PortType::Udp {
        steps.push(SetupStep::Connect { port: n });
    } else if port_type == PortType::Listen {
        steps.push(
            SetupStep::Bind {
                ip: None,
                port: n,
                error: "Could not bind remote tcp listen socket".to_owned(),
            },
        );
        steps.push(SetupStep::Listen { error: "Error on listen".to_owned() });
    }
    assert(step_views(steps@) =~= before + socket_steps(port_type, host@, port@));
    RemoteMade::Socket { port_type, port: n }
}

fn push_step(steps: &mut Vec<SetupStep>, step: SetupStep)
    ensures
        step_views(final(steps)@) == step_views(old(steps)@).push(step@),
{
    let ghost before = step_views(steps@);
    steps.push(step);
    assert(step_views(steps@) =~= before.push(step@));
}

fn socket_step(datagram: bool) -> (r: SetupStep)
    ensures
        r@ == remote_socket(datagram),
{
    SetupStep::Socket { datagram, error: "Could not allocate socket".to_owned() }
}

fn fifo_steps(path: String) -> (r: RemotePortPlan)
    ensures
        step_views(r.steps@) == seq![
            StepView::MakeFifo { path: path@, error: "Error creating "@ + path@ + " fifo"@ },
            StepView::OpenFifo { path: path@, error: "Error opening fifo"@ },
        ],
        r.made@ == (MadeView::Fifo { path: path@ }),
{
    let mut error = "Error creating ".to_owned();
    error.append(path.as_str());
    error.append(" fifo");
    let mut steps: Vec<SetupStep> = Vec::new();
    steps.push(SetupStep::MakeFifo { path: path.as_str().to_owned(), error });
    steps.push(
        SetupStep::OpenFifo {
            path: path.as_str().to_owned(),
            error: "Error opening fifo".to_owned(),
        },
    );
    assert(step_views(steps@) =~= seq![
        StepView::MakeFifo { path: path@, error: "Error creating "@ + path@ + " fifo"@ },
        StepView::OpenFifo { path: path@, error: "Error opening fifo"@ },
    ]);
    RemotePortPlan { made: RemoteMade::Fifo { path }, steps }
}

fn serial_steps(path: String, baud: Option<&str>) -> (r: RemotePortPlan)
    ensures
        ({
            let rate = serial_rate(
                path@,
                match baud {
                    Some(b) => Some(b@),
                    None => None,
                },
            );
            (step_views(r.steps@), r.made@) == match rate {
                Ok(rate) => (
                    seq![StepView::OpenSerial { path: path@, baud: rate }],
                    MadeView::Serial { path: path@, baud: rate },
                ),
                Err(error) => (seq![StepView::Refuse { error }], MadeView::Nothing),
            }
        }),
{
    let mut steps: Vec<SetupStep> = Vec::new();
    match serial_baud(path.as_str(), baud) {
        Ok(rate) => {
            steps.push(SetupStep::OpenSerial { path: path.as_str().to_owned(), baud: rate });
            assert(step_views(steps@) =~= seq![
                StepView::OpenSerial { path: path@, baud: rate },
            ]);
            RemotePortPlan { made: RemoteMade::Serial { path, baud: rate }, steps }
        },
        Err(error) => {
            steps.push(SetupStep::Refuse { error });
            assert(step_views(steps@) =~= seq![StepView::Refuse { error: error@ }]);
            RemotePortPlan { made: RemoteMade::Nothing, steps }
        },
    }
}

/// What it takes to open the remote `text` on the host `host`.
pub fn plan_remote_port(host: &str, text: &str) -> (r: RemotePortPlan)
    ensures
        (step_views(r.steps@), r.made@) == remote_steps(host@, text@),
{
    let ghost meant = remote_steps(host@, text@).0;
    let mut steps: Vec<SetupStep> = Vec::new();
    assert(step_views(steps@) =~= Seq::<StepView>::empty());
    match remote_kind(text) {
        RemoteKind::Udp { src, port } => {
            push_step(&mut steps, socket_step(true));
            push_step(&mut steps, SetupStep::Nonblocking);
            assert(step_views(steps@) =~= seq![remote_socket(true), StepView::Nonblocking]);
            if let Some(src) = src {
                match parse_port_number(src.as_str()) {
                    Ok(n) => {
                        push_step(
                            &mut steps,
                            SetupStep::Bind {
                                ip: Some(UNSPECIFIED),
                                port: n,
                                error: "Could not bind remote udp socket".to_owned(),
                            },
                        );
                    },
                    Err(exit) => {
                        push_step(&mut steps, SetupStep::End(exit));
                        assert(step_views(steps@) =~= meant);
                        return RemotePortPlan { made: RemoteMade::Nothing, steps };
                    },
                }
            }
            assert(step_views(steps@) =~= meant.take(steps@.len() as int));
            let made = push_socket_steps(&mut steps, PortType::Udp, host, port.as_str());
            assert(step_views(steps@) =~= meant);
            RemotePortPlan { made, steps }
        },
        RemoteKind::Listen { port } => {
            push_step(&mut steps, socket_step(false));
            push_step(&mut steps, SetupStep::ReuseAddr);
            push_step(&mut steps, SetupStep::Nonblocking);
            assert(step_views(steps@) =~= meant.take(3));
            let made = push_socket_steps(&mut steps, PortType::Listen, host, port.as_str());
            assert(step_views(steps@) =~= meant);
            RemotePortPlan { made, steps }
        },
        RemoteKind::Tcp { port } => {
            let made = push_socket_steps(&mut steps, PortType::Tcp, host, port.as_str());
            assert(step_views(steps@) =~= meant);
            RemotePortPlan { made, steps }
        },
        RemoteKind::FifoCon { path } => fifo_steps(path),
        RemoteKind::Serial { path, baud } => {
            let baud = match &baud {
                Some(baud) => Some(baud.as_str()),
                None => None,
            };
            serial_steps(path, baud)
        },
    }
}

/// A plan that ends or is refused does so with its last step, and then nothing is made; any
/// other plan makes something.
pub proof fn lemma_remote_is_made_or_refused(host: Seq<char>, text: Seq<char>)
    ensures
        ({
            let (steps, made) = remote_steps(host, text);
            &&& steps.len() > 0
            &&& made is Nothing <==> steps.last() is End || steps.last() is Refuse
            &&& forall|i: int|
                0 <= i < steps.len() - 1 ==> !(#[trigger] steps[i] is End) && !(steps[i] is Refuse)
        }),
{
}

} // verus!
