//! The command line: two subcommands with long options, and the positional form.
use vstd::prelude::*;
use crate::device::{default_serial_device, DEFAULT_SERIAL_DEVICE};
use crate::number::{decimal, decimal_of, number_in, parse_number};
use crate::state::{Settings, SettingsView};
use crate::text::{
    chars_of, first_at, has_prefix, lemma_first_at, lemma_split_first, split_first, split_once,
    starts_with, str_eq, string_of, string_views, strip_prefix,
};

verus! {

/// The console port where none is given.
pub const DEFAULT_CONSOLE_PORT: &'static str = "4440";

/// The debugger port where none is given.
pub const DEFAULT_GDB_PORT: &'static str = "4441";

/// The rate of the serial line where none is given.
pub const DEFAULT_BAUD: &'static str = "115200";

/// Why the proxy does not start.
pub enum CliExit {
    /// The help was asked for.
    Help,
    /// The version was asked for.
    Version,
    /// The command line is wrong; the usage is shown after the message, if there is one.
    Usage(Option<String>),
    /// The command line is wrong; the message is followed by a hint at the help.
    TryHelp(String),
    /// The command line is wrong, for the reason given.
    Fail(String),
}

/// The abstract value of a [`CliExit`].
#[verifier::ext_equal]
pub enum ExitView {
    Help,
    Version,
    Usage(Option<Seq<char>>),
    TryHelp(Seq<char>),
    Fail(Seq<char>),
}

/// An optional string as optional text.
pub open spec fn opt_text(s: Option<String>) -> Option<Seq<char>> {
    match s {
        Some(s) => Some(s@),
        None => None,
    }
}

impl View for CliExit {
    type V = ExitView;

    open spec fn view(&self) -> ExitView {
        match self {
            CliExit::Help => ExitView::Help,
            CliExit::Version => ExitView::Version,
            CliExit::Usage(m) => ExitView::Usage(opt_text(*m)),
            CliExit::TryHelp(m) => ExitView::TryHelp(m@),
            CliExit::Fail(m) => ExitView::Fail(m@),
        }
    }
}

/// A subcommand.
#[derive(Debug, Clone, Copy, PartialEq, Eq, Structural)]
pub enum CliMode {
    Proxy,
    SerialSplit,
}

/// What the command line asks for.
pub struct CliArgs {
    /// The local endpoint, the remote host, and the remote endpoint.
    pub proxy_args: Vec<String>,
    pub pidfile: Option<String>,
    pub do_fork: bool,
    pub settings: Settings,
}

/// The abstract value of [`CliArgs`].
#[verifier::ext_equal]
pub struct ArgsView {
    pub proxy_args: Seq<Seq<char>>,
    pub pidfile: Option<Seq<char>>,
    pub do_fork: bool,
    pub settings: SettingsView,
}

impl View for CliArgs {
    type V = ArgsView;

    open spec fn view(&self) -> ArgsView {
        ArgsView {
            proxy_args: string_views(self.proxy_args@),
            pidfile: opt_text(self.pidfile),
            do_fork: self.do_fork,
            settings: self.settings@,
        }
    }
}

/// What was found on the command line so far.
pub struct CliScan {
    pub mode: Option<CliMode>,
    pub legacy_args: Vec<String>,
    pub local: Option<String>,
    pub remote: Option<String>,
    pub remote_host: Option<String>,
    pub device: Option<String>,
    pub baud: Option<String>,
    pub console_port: Option<String>,
    pub gdb_port: Option<String>,
    pub pidfile: Option<String>,
    pub do_fork: bool,
    pub end_of_options: bool,
    pub settings: Settings,
}

/// The abstract value of a [`CliScan`].
#[verifier::ext_equal]
pub struct ScanView {
    pub mode: Option<CliMode>,
    pub legacy_args: Seq<Seq<char>>,
    pub local: Option<Seq<char>>,
    pub remote: Option<Seq<char>>,
    pub remote_host: Option<Seq<char>>,
    pub device: Option<Seq<char>>,
    pub baud: Option<Seq<char>>,
    pub console_port: Option<Seq<char>>,
    pub gdb_port: Option<Seq<char>>,
    pub pidfile: Option<Seq<char>>,
    pub do_fork: bool,
    pub end_of_options: bool,
    pub settings: SettingsView,
}

impl View for CliScan {
    type V = ScanView;

    open spec fn view(&self) -> ScanView {
        ScanView {
            mode: self.mode,
            legacy_args: string_views(self.legacy_args@),
            local: opt_text(self.local),
            remote: opt_text(self.remote),
            remote_host: opt_text(self.remote_host),
            device: opt_text(self.device),
            baud: opt_text(self.baud),
            console_port: opt_text(self.console_port),
            gdb_port: opt_text(self.gdb_port),
            pidfile: opt_text(self.pidfile),
            do_fork: self.do_fork,
            end_of_options: self.end_of_options,
            settings: self.settings@,
        }
    }
}

/// A long option.
#[derive(Debug, Clone, Copy, PartialEq, Eq, Structural)]
pub enum LongOption {
    Help,
    Version,
    Verbose,
    LogChars,
    Daemon,
    NoBreakOnConnect,
    NoGdbFilter,
    Telnet,
    PidFile,
    BreakByte,
    Local,
    Remote,
    RemoteHost,
    Device,
    Baud,
    ConsolePort,
    GdbPort,
}

/// The long option of the name `name`.
pub open spec fn long_option(name: Seq<char>) -> Option<LongOption> {
    if name == "--help"@ {
        Some(LongOption::Help)
    } else if name == "--version"@ {
        Some(LongOption::Version)
    } else if name == "--verbose"@ {
        Some(LongOption::Verbose)
    } else if name == "--log-chars"@ {
        Some(LongOption::LogChars)
    } else if name == "--daemon"@ {
        Some(LongOption::Daemon)
    } else if name == "--pid-file"@ {
        Some(LongOption::PidFile)
    } else if name == "--no-break-on-connect"@ {
        Some(LongOption::NoBreakOnConnect)
    } else if name == "--no-gdb-filter"@ {
        Some(LongOption::NoGdbFilter)
    } else if name == "--break-byte"@ {
        Some(LongOption::BreakByte)
    } else if name == "--telnet"@ || name == "--telnet-negotiation"@ {
        Some(LongOption::Telnet)
    } else if name == "--local"@ {
        Some(LongOption::Local)
    } else if name == "--remote"@ {
        Some(LongOption::Remote)
    } else if name == "--remote-host"@ {
        Some(LongOption::RemoteHost)
    } else if name == "--device"@ {
        Some(LongOption::Device)
    } else if name == "--baud"@ {
        Some(LongOption::Baud)
    } else if name == "--console-port"@ {
        Some(LongOption::ConsolePort)
    } else if name == "--gdb-port"@ || name == "--kgdb-port"@ {
        Some(LongOption::GdbPort)
    } else {
        None
    }
}

impl LongOption {
    /// The option stands alone.
    pub open spec fn is_flag(self) -> bool {
        match self {
            LongOption::Help | LongOption::Version | LongOption::Verbose | LongOption::LogChars
            | LongOption::Daemon | LongOption::NoBreakOnConnect | LongOption::NoGdbFilter
            | LongOption::Telnet => true,
            _ => false,
        }
    }
}

/// The value of a port number in decimal, or in hexadecimal behind "0x".
pub open spec fn port_number(s: Seq<char>) -> Option<u16> {
    let n = if has_prefix(s, "0x"@) {
        number_in(s.skip(2), 16, 65535)
    } else {
        number_in(s, 10, 65535)
    };
    match n {
        Some(n) => Some(n as u16),
        None => None,
    }
}

/// The message for text that is no port number.
pub open spec fn bad_port(s: Seq<char>) -> ExitView {
    ExitView::Fail("Invalid port number: "@ + s)
}

impl ScanView {
    /// Before the first argument.
    pub open spec fn start() -> ScanView {
        ScanView {
            mode: None,
            legacy_args: Seq::empty(),
            local: None,
            remote: None,
            remote_host: None,
            device: None,
            baud: None,
            console_port: None,
            gdb_port: None,
            pidfile: None,
            do_fork: false,
            end_of_options: false,
            settings: SettingsView::defaults(),
        }
    }

    /// After a word that is no option: the first subcommand is taken as such.
    pub open spec fn word(self, s: Seq<char>) -> ScanView {
        if self.mode is None && s == "proxy"@ {
            ScanView { mode: Some(CliMode::Proxy), ..self }
        } else if self.mode is None && s == "serial-split"@ {
            ScanView { mode: Some(CliMode::SerialSplit), ..self }
        } else {
            ScanView { legacy_args: self.legacy_args.push(s), ..self }
        }
    }

    /// After the option that makes the break sequence one byte.
    pub open spec fn break_byte(self, value: Seq<char>) -> Result<ScanView, ExitView> {
        match number_in(value, 10, 255) {
            Some(n) => Ok(
                ScanView {
                    settings: SettingsView { break_str: seq![n as u8], ..self.settings },
                    ..self
                },
            ),
            None => Err(ExitView::Usage(Some("Invalid break byte: "@ + value))),
        }
    }

    /// After the option `opt`, which stands alone.
    pub open spec fn flag(self, opt: LongOption) -> Result<ScanView, ExitView> {
        match opt {
            LongOption::Help => Err(ExitView::Help),
            LongOption::Version => Err(ExitView::Version),
            LongOption::Verbose => Ok(
                ScanView { settings: SettingsView { debug: true, ..self.settings }, ..self },
            ),
            LongOption::LogChars => Ok(
                ScanView { settings: SettingsView { logchar: true, ..self.settings }, ..self },
            ),
            LongOption::Daemon => Ok(ScanView { do_fork: true, ..self }),
            LongOption::NoBreakOnConnect => Ok(
                ScanView {
                    settings: SettingsView { break_on_connect: false, ..self.settings },
                    ..self
                },
            ),
            LongOption::NoGdbFilter => Ok(
                ScanView { settings: SettingsView { gdb_split: false, ..self.settings }, ..self },
            ),
            LongOption::Telnet => Ok(
                ScanView {
                    settings: SettingsView { telnet_negotiation: true, ..self.settings },
                    ..self
                },
            ),
            _ => Ok(self),
        }
    }

    /// After the option `opt` with the value `value`.
    pub open spec fn valued(self, opt: LongOption, value: Seq<char>) -> Result<ScanView, ExitView> {
        let split = Some(CliMode::SerialSplit);
        match opt {
            LongOption::PidFile => Ok(ScanView { pidfile: Some(value), ..self }),
            LongOption::BreakByte => self.break_byte(value),
            LongOption::Local => Ok(ScanView { local: Some(value), ..self }),
            LongOption::Remote => Ok(ScanView { remote: Some(value), ..self }),
            LongOption::RemoteHost => Ok(ScanView { remote_host: Some(value), ..self }),
            LongOption::Device => Ok(ScanView { mode: split, device: Some(value), ..self }),
            LongOption::Baud => Ok(ScanView { mode: split, baud: Some(value), ..self }),
            LongOption::ConsolePort => Ok(
                ScanView { mode: split, console_port: Some(value), ..self },
            ),
            LongOption::GdbPort => Ok(ScanView { mode: split, gdb_port: Some(value), ..self }),
            _ => Ok(self),
        }
    }
}

/// A scan with the position of the last argument that was used, or the reason to end.
pub type Scanned = Result<(ScanView, int), ExitView>;

/// `next` together with the position `i`.
pub open spec fn at(next: Result<ScanView, ExitView>, i: int) -> Scanned {
    match next {
        Ok(c) => Ok((c, i)),
        Err(e) => Err(e),
    }
}

/// The reason to end where the argument of `opt` is missing.
pub open spec fn no_argument(opt: Seq<char>) -> ExitView {
    ExitView::Usage(Some("No argument specified for "@ + opt))
}

/// The name of a long option and the value that is written behind it with an equals sign.
pub open spec fn long_parts(s: Seq<char>) -> (Seq<char>, Option<Seq<char>>) {
    match split_first(s, '=') {
        Some((name, value)) => (name, Some(value)),
        None => (s, None),
    }
}

/// After the long option at `args[i]`.
pub open spec fn scan_long(c: ScanView, args: Seq<Seq<char>>, i: int) -> Scanned {
    let (name, inline) = long_parts(args[i]);
    match long_option(name) {
        Some(opt) => if opt.is_flag() {
            if inline is Some {
                Err(ExitView::Usage(Some("Option "@ + name + " does not take a value"@)))
            } else {
                at(c.flag(opt), i)
            }
        } else {
            match inline {
                Some(value) => at(c.valued(opt, value), i),
                None => if i + 1 < args.len() {
                    at(c.valued(opt, args[i + 1]), i + 1)
                } else {
                    Err(no_argument(name))
                },
            }
        },
        None => Err(ExitView::Usage(Some("Option "@ + name + " not recognized"@))),
    }
}

/// The long option that the letter `c` stands for, of those that stand alone.
pub open spec fn short_flag(c: char) -> Option<LongOption> {
    if c == 'h' {
        Some(LongOption::Help)
    } else if c == 'd' {
        Some(LongOption::LogChars)
    } else if c == 'v' {
        Some(LongOption::Verbose)
    } else if c == 'D' {
        Some(LongOption::Daemon)
    } else if c == 'G' {
        Some(LongOption::NoGdbFilter)
    } else if c == 'B' {
        Some(LongOption::NoBreakOnConnect)
    } else {
        None
    }
}

/// After the letters of `opts` from `j` on, which are short options, where `args[i]` is the
/// last argument that was used. Each `f` takes the next argument. The letter `s` takes the
/// letters that follow it, or the next argument where there are none.
pub open spec fn scan_short(
    c: ScanView,
    opts: Seq<char>,
    j: int,
    args: Seq<Seq<char>>,
    i: int,
) -> Scanned
    decreases opts.len() - j,
{
    if j >= opts.len() {
        Ok((c, i))
    } else if short_flag(opts[j]) is Some {
        match c.flag(short_flag(opts[j])->0) {
            Ok(c1) => scan_short(c1, opts, j + 1, args, i),
            Err(e) => Err(e),
        }
    } else if opts[j] == 'f' {
        if i + 1 < args.len() {
            scan_short(ScanView { pidfile: Some(args[i + 1]), ..c }, opts, j + 1, args, i + 1)
        } else {
            Err(no_argument("-f"@))
        }
    } else if opts[j] == 's' {
        if j + 1 < opts.len() {
            at(c.break_byte(opts.skip(j + 1)), i)
        } else if i + 1 < args.len() {
            at(c.break_byte(args[i + 1]), i + 1)
        } else {
            Err(no_argument("-s"@))
        }
    } else {
        Err(ExitView::Usage(Some("Option -"@ + seq![opts[j]] + " not recognized"@)))
    }
}

/// After the argument `args[i]`, and those that it takes.
pub open spec fn scan_arg(c: ScanView, args: Seq<Seq<char>>, i: int) -> Scanned {
    let s = args[i];
    if c.end_of_options {
        Ok((ScanView { legacy_args: c.legacy_args.push(s), ..c }, i))
    } else if s == "--"@ {
        Ok((ScanView { end_of_options: true, ..c }, i))
    } else if !has_prefix(s, "-"@) {
        Ok((c.word(s), i))
    } else if has_prefix(s, "--"@) {
        scan_long(c, args, i)
    } else {
        scan_short(c, s.skip(1), 0, args, i)
    }
}

proof fn lemma_scan_short_moves_on(
    c: ScanView,
    opts: Seq<char>,
    j: int,
    args: Seq<Seq<char>>,
    i: int,
)
    requires
        i < args.len(),
    ensures
        scan_short(c, opts, j, args, i) matches Ok((_, last)) ==> i <= last < args.len(),
    decreases opts.len() - j,
{
    if j < opts.len() {
        if short_flag(opts[j]) is Some {
            if let Ok(c1) = c.flag(short_flag(opts[j])->0) {
                lemma_scan_short_moves_on(c1, opts, j + 1, args, i);
            }
        } else if opts[j] == 'f' && i + 1 < args.len() {
            lemma_scan_short_moves_on(
                ScanView { pidfile: Some(args[i + 1]), ..c },
                opts,
                j + 1,
                args,
                i + 1,
            );
        }
    }
}

/// Reading an argument moves on by at least that argument, and not beyond the last one.
pub proof fn lemma_scan_arg_moves_on(c: ScanView, args: Seq<Seq<char>>, i: int)
    requires
        i < args.len(),
    ensures
        scan_arg(c, args, i) matches Ok((_, last)) ==> i <= last < args.len(),
{
    lemma_scan_short_moves_on(c, args[i].skip(1), 0, args, i);
}

/// After the arguments from `i` on.
pub open spec fn scan(c: ScanView, args: Seq<Seq<char>>, i: int) -> Result<ScanView, ExitView>
    decreases args.len() - i,
{
    if i >= args.len() {
        Ok(c)
    } else {
        proof {
            lemma_scan_arg_moves_on(c, args, i);
        }
        match scan_arg(c, args, i) {
            Ok((c1, last)) => scan(c1, args, last + 1),
            Err(e) => Err(e),
        }
    }
}

/// The parts of `value` before and after its first colon, both of which must be there.
pub open spec fn host_and_port(value: Seq<char>, context: Seq<char>) -> Result<
    (Seq<char>, Seq<char>),
    ExitView,
> {
    match split_first(value, ':') {
        Some((left, right)) => if left.len() == 0 || right.len() == 0 {
            Err(
                ExitView::Usage(
                    Some(context + " must include non-empty host and port: "@ + value),
                ),
            )
        } else {
            Ok((left, right))
        },
        None => Err(ExitView::Usage(Some(context + " must include host and port: "@ + value))),
    }
}

/// What follows `long` or else `short` in `s`, where `s` begins with one of them.
pub open spec fn after_either(
    s: Seq<char>,
    long: Seq<char>,
    short: Seq<char>,
) -> Option<Seq<char>> {
    if has_prefix(s, long) {
        Some(s.skip(long.len() as int))
    } else if has_prefix(s, short) {
        Some(s.skip(short.len() as int))
    } else {
        None
    }
}

/// The host and the endpoint of `remote` in positional form.
pub open spec fn remote_endpoint(remote: Seq<char>, remote_host: Option<Seq<char>>) -> Result<
    (Seq<char>, Seq<char>),
    ExitView,
> {
    if remote_host is Some {
        Ok((remote_host->0, remote))
    } else if after_either(remote, "tcp://"@, "tcp:"@) is Some {
        host_and_port(after_either(remote, "tcp://"@, "tcp:"@)->0, "TCP remote endpoint"@)
    } else if after_either(remote, "udp://"@, "udp:"@) is Some {
        match host_and_port(after_either(remote, "udp://"@, "udp:"@)->0, "UDP remote endpoint"@) {
            Ok((host, ports)) => Ok((host, "udp:"@ + ports)),
            Err(e) => Err(e),
        }
    } else if has_prefix(remote, "serial:"@) {
        let rest = remote.skip("serial:"@.len() as int);
        if rest.len() == 0 {
            Err(ExitView::Usage(Some("serial remote endpoint must include a device path"@)))
        } else {
            Ok(("0"@, rest))
        }
    } else if has_prefix(remote, "tcplisten:"@) {
        match host_and_port(remote.skip("tcplisten:"@.len() as int), "tcplisten remote endpoint"@) {
            Ok((host, port)) => Ok((host, "tcplisten:"@ + port)),
            Err(e) => Err(e),
        }
    } else if has_prefix(remote, "fifocon:"@) {
        let rest = remote.skip("fifocon:"@.len() as int);
        if rest.len() == 0 {
            Err(ExitView::Usage(Some("fifocon remote endpoint must include a path"@)))
        } else {
            Ok(("0"@, "fifocon:"@ + rest))
        }
    } else {
        Err(
            ExitView::Usage(
                Some(
                    "Remote endpoint must start with tcp:, udp:, serial:, tcplisten:, or fifocon:"@,
                ),
            ),
        )
    }
}

/// `value`, or `default` where there is none.
pub open spec fn or_default(value: Option<Seq<char>>, default: Seq<char>) -> Seq<char> {
    match value {
        Some(value) => value,
        None => default,
    }
}

impl ScanView {
    /// What the command line asks for, with `proxy_args` as the endpoints.
    pub open spec fn asks_for(self, proxy_args: Seq<Seq<char>>) -> ArgsView {
        ArgsView {
            proxy_args,
            pidfile: self.pidfile,
            do_fork: self.do_fork,
            settings: self.settings,
        }
    }

    /// The message where no device is given and the default device does not exist.
    pub open spec fn no_device() -> Seq<char> {
        "serial-split requires explicit --device because default device "@
            + DEFAULT_SERIAL_DEVICE@ + " does not exist"@
    }

    /// What the subcommand `serial-split` asks for.
    pub open spec fn serial_split(self, default_device_exists: bool) -> Result<ArgsView, ExitView> {
        let console = or_default(self.console_port, DEFAULT_CONSOLE_PORT@);
        let gdb = or_default(self.gdb_port, DEFAULT_GDB_PORT@);
        let device = or_default(self.device, DEFAULT_SERIAL_DEVICE@);
        let baud = or_default(self.baud, DEFAULT_BAUD@);
        if self.legacy_args.len() > 0 || self.local is Some || self.remote is Some
            || self.remote_host is Some {
            Err(
                ExitView::Usage(
                    Some("serial-split uses --device, --console-port, and --gdb-port"@),
                ),
            )
        } else if self.device is None && !default_device_exists {
            Err(ExitView::TryHelp(ScanView::no_device()))
        } else if port_number(console) is None {
            Err(bad_port(console))
        } else if port_number(gdb) is None {
            Err(bad_port(gdb))
        } else {
            Ok(
                self.asks_for(
                    seq![
                        decimal(port_number(console)->0 as nat) + "^"@ + decimal(
                            port_number(gdb)->0 as nat,
                        ),
                        "0"@,
                        device + ","@ + baud,
                    ],
                ),
            )
        }
    }

    /// What the subcommand `proxy` asks for.
    pub open spec fn proxy(self) -> Result<ArgsView, ExitView> {
        if self.legacy_args.len() > 0 {
            Err(
                ExitView::TryHelp(
                    "proxy mode uses --local and --remote, not positional endpoints"@,
                ),
            )
        } else if self.local is None {
            Err(ExitView::TryHelp("proxy mode requires --local"@))
        } else if self.remote is None {
            Err(ExitView::TryHelp("proxy mode requires --remote"@))
        } else {
            match remote_endpoint(self.remote->0, self.remote_host) {
                Ok((host, remote)) => Ok(self.asks_for(seq![self.local->0, host, remote])),
                Err(e) => Err(e),
            }
        }
    }

    /// What the command line asks for, once it is read.
    pub open spec fn finish(self, default_device_exists: bool) -> Result<ArgsView, ExitView> {
        if self.mode == Some(CliMode::SerialSplit) {
            self.serial_split(default_device_exists)
        } else if self.mode == Some(CliMode::Proxy) || self.local is Some || self.remote is Some
            || self.remote_host is Some {
            self.proxy()
        } else if self.legacy_args.len() != 3 {
            Err(ExitView::Usage(None))
        } else {
            Ok(self.asks_for(self.legacy_args))
        }
    }
}

/// What the command line `args` asks for; its first argument is the name of the program.
pub open spec fn command_line(args: Seq<Seq<char>>, default_device_exists: bool) -> Result<
    ArgsView,
    ExitView,
> {
    match scan(ScanView::start(), args, 1) {
        Ok(c) => c.finish(default_device_exists),
        Err(e) => Err(e),
    }
}

fn two(a: &str, b: &str) -> (s: String)
    ensures
        s@ == a@ + b@,
{
    let mut s = a.to_owned();
    s.append(b);
    s
}

fn three(a: &str, b: &str, c: &str) -> (s: String)
    ensures
        s@ == a@ + b@ + c@,
{
    let mut s = two(a, b);
    s.append(c);
    s
}

/// The port number that `s` writes.
pub fn parse_port_number(s: &str) -> (r: Result<u16, CliExit>)
    ensures
        match r {
            Ok(n) => port_number(s@) == Some(n),
            Err(e) => port_number(s@) is None && e@ == bad_port(s@),
        },
{
    proof {
        reveal_strlit("0x");
    }
    let n = match strip_prefix(s, "0x") {
        Some(hex) => parse_number(hex, 16, 65535),
        None => parse_number(s, 10, 65535),
    };
    match n {
        Some(n) => Ok(n as u16),
        None => Err(CliExit::Fail(two("Invalid port number: ", s))),
    }
}

fn find_long_option(name: &str) -> (r: Option<LongOption>)
    ensures
        r == long_option(name@),
{
    if str_eq(name, "--help") {
        Some(LongOption::Help)
    } else if str_eq(name, "--version") {
        Some(LongOption::Version)
    } else if str_eq(name, "--verbose") {
        Some(LongOption::Verbose)
    } else if str_eq(name, "--log-chars") {
        Some(LongOption::LogChars)
    } else if str_eq(name, "--daemon") {
        Some(LongOption::Daemon)
    } else if str_eq(name, "--pid-file") {
        Some(LongOption::PidFile)
    } else if str_eq(name, "--no-break-on-connect") {
        Some(LongOption::NoBreakOnConnect)
    } else if str_eq(name, "--no-gdb-filter") {
        Some(LongOption::NoGdbFilter)
    } else if str_eq(name, "--break-byte") {
        Some(LongOption::BreakByte)
    } else if str_eq(name, "--telnet") || str_eq(name, "--telnet-negotiation") {
        Some(LongOption::Telnet)
    } else if str_eq(name, "--local") {
        Some(LongOption::Local)
    } else if str_eq(name, "--remote") {
        Some(LongOption::Remote)
    } else if str_eq(name, "--remote-host") {
        Some(LongOption::RemoteHost)
    } else if str_eq(name, "--device") {
        Some(LongOption::Device)
    } else if str_eq(name, "--baud") {
        Some(LongOption::Baud)
    } else if str_eq(name, "--console-port") {
        Some(LongOption::ConsolePort)
    } else if str_eq(name, "--gdb-port") || str_eq(name, "--kgdb-port") {
        Some(LongOption::GdbPort)
    } else {
        None
    }
}

fn find_short_flag(c: char) -> (r: Option<LongOption>)
    ensures
        r == short_flag(c),
{
    if c == 'h' {
        Some(LongOption::Help)
    } else if c == 'd' {
        Some(LongOption::LogChars)
    } else if c == 'v' {
        Some(LongOption::Verbose)
    } else if c == 'D' {
        Some(LongOption::Daemon)
    } else if c == 'G' {
        Some(LongOption::NoGdbFilter)
    } else if c == 'B' {
        Some(LongOption::NoBreakOnConnect)
    } else {
        None
    }
}

fn takes_no_value(opt: LongOption) -> (r: bool)
    ensures
        r == opt.is_flag(),
{
    match opt {
        LongOption::Help | LongOption::Version | LongOption::Verbose | LongOption::LogChars
        | LongOption::Daemon | LongOption::NoBreakOnConnect | LongOption::NoGdbFilter
        | LongOption::Telnet => true,
        _ => false,
    }
}

/// The argument behind `args[i]`, which the option `opt` takes.
fn require_arg(args: &Vec<String>, i: usize, opt: &str) -> (r: Result<String, CliExit>)
    requires
        i < args@.len(),
    ensures
        match r {
            Ok(value) => i + 1 < args@.len() && value@ == string_views(args@)[i + 1],
            Err(e) => i + 1 >= args@.len() && e@ == no_argument(opt@),
        },
{
    let n = args.len();
    if n - i > 1 {
        Ok(args[i + 1].as_str().to_owned())
    } else {
        Err(CliExit::Usage(Some(two("No argument specified for ", opt))))
    }
}

/// A scan, or the reason to end, matches what it is meant to be.
pub open spec fn ends_as(
    r: Result<(), CliExit>,
    c: ScanView,
    meant: Result<ScanView, ExitView>,
) -> bool {
    match r {
        Ok(_) => meant == Ok::<ScanView, ExitView>(c),
        Err(e) => meant == Err::<ScanView, ExitView>(e@),
    }
}

/// A scan with a position, or the reason to end, matches what it is meant to be.
pub open spec fn moves_as(r: Result<usize, CliExit>, c: ScanView, meant: Scanned) -> bool {
    match r {
        Ok(last) => meant == Ok::<(ScanView, int), ExitView>((c, last as int)),
        Err(e) => meant == Err::<(ScanView, int), ExitView>(e@),
    }
}

impl CliScan {
    fn new() -> (c: CliScan)
        ensures
            c@ == ScanView::start(),
    {
        let c = CliScan {
            mode: None,
            legacy_args: Vec::new(),
            local: None,
            remote: None,
            remote_host: None,
            device: None,
            baud: None,
            console_port: None,
            gdb_port: None,
            pidfile: None,
            do_fork: false,
            end_of_options: false,
            settings: Settings::new(),
        };
        assert(c@ =~= ScanView::start());
        c
    }

    fn push_word(&mut self, s: &str)
        ensures
            final(self)@ == (ScanView {
                legacy_args: old(self)@.legacy_args.push(s@),
                ..old(self)@
            }),
    {
        self.legacy_args.push(s.to_owned());
        assert(self@.legacy_args =~= old(self)@.legacy_args.push(s@));
    }

    fn word(&mut self, s: &str)
        ensures
            final(self)@ == old(self)@.word(s@),
    {
        if self.mode.is_none() && str_eq(s, "proxy") {
            self.mode = Some(CliMode::Proxy);
        } else if self.mode.is_none() && str_eq(s, "serial-split") {
            self.mode = Some(CliMode::SerialSplit);
        } else {
            self.push_word(s);
        }
    }

    fn set_break_byte(&mut self, value: &str) -> (r: Result<(), CliExit>)
        ensures
            ends_as(r, final(self)@, old(self)@.break_byte(value@)),
    {
        match parse_number(value, 10, 255) {
            Some(n) => {
                self.settings.break_str = vec![n as u8];
                assert(self@.settings.break_str =~= seq![n as u8]);
                Ok(())
            },
            None => Err(CliExit::Usage(Some(two("Invalid break byte: ", value)))),
        }
    }

    fn flag(&mut self, opt: LongOption) -> (r: Result<(), CliExit>)
        ensures
            ends_as(r, final(self)@, old(self)@.flag(opt)),
    {
        match opt {
            LongOption::Help => {
                return Err(CliExit::Help);
            },
            LongOption::Version => {
                return Err(CliExit::Version);
            },
            LongOption::Verbose => {
                self.settings.debug = true;
            },
            LongOption::LogChars => {
                self.settings.logchar = true;
            },
            LongOption::Daemon => {
                self.do_fork = true;
            },
            LongOption::NoBreakOnConnect => {
                self.settings.break_on_connect = false;
            },
            LongOption::NoGdbFilter => {
                self.settings.gdb_split = false;
            },
            LongOption::Telnet => {
                self.settings.telnet_negotiation = true;
            },
            _ => {},
        }
        Ok(())
    }

    fn valued(&mut self, opt: LongOption, value: String) -> (r: Result<(), CliExit>)
        ensures
            ends_as(r, final(self)@, old(self)@.valued(opt, value@)),
    {
        match opt {
            LongOption::PidFile => {
                self.pidfile = Some(value);
            },
            LongOption::BreakByte => {
                return self.set_break_byte(value.as_str());
            },
            LongOption::Local => {
                self.local = Some(value);
            },
            LongOption::Remote => {
                self.remote = Some(value);
            },
            LongOption::RemoteHost => {
                self.remote_host = Some(value);
            },
            LongOption::Device => {
                self.mode = Some(CliMode::SerialSplit);
                self.device = Some(value);
            },
            LongOption::Baud => {
                self.mode = Some(CliMode::SerialSplit);
                self.baud = Some(value);
            },
            LongOption::ConsolePort => {
                self.mode = Some(CliMode::SerialSplit);
                self.console_port = Some(value);
            },
            LongOption::GdbPort => {
                self.mode = Some(CliMode::SerialSplit);
                self.gdb_port = Some(value);
            },
            _ => {},
        }
        Ok(())
    }

    fn scan_long(&mut self, args: &Vec<String>, i: usize) -> (r: Result<usize, CliExit>)
        requires
            i < args@.len(),
        ensures
            moves_as(r, final(self)@, scan_long(old(self)@, string_views(args@), i as int)),
    {
        let n = args.len();
        let s = args[i].as_str();
        assert(s@ == string_views(args@)[i as int]);
        let (name, inline) = match split_once(s, '=') {
            Some((name, value)) => (name, Some(value)),
            None => (s, None),
        };
        let opt = match find_long_option(name) {
            Some(opt) => opt,
            None => {
                return Err(CliExit::Usage(Some(three("Option ", name, " not recognized"))));
            },
        };
        if takes_no_value(opt) {
            if inline.is_some() {
                return Err(
                    CliExit::Usage(Some(three("Option ", name, " does not take a value"))),
                );
            }
            return match self.flag(opt) {
                Ok(_) => Ok(i),
                Err(e) => Err(e),
            };
        }
        let mut last: usize = i;
        let value = match inline {
            Some(value) => value.to_owned(),
            None => match require_arg(args, i, name) {
                Ok(value) => {
                    assert(i + 1 < n);
                    last = i + 1;
                    value
                },
                Err(e) => {
                    return Err(e);
                },
            },
        };
        match self.valued(opt, value) {
            Ok(_) => Ok(last),
            Err(e) => Err(e),
        }
    }

    fn scan_short(&mut self, args: &Vec<String>, i: usize) -> (r: Result<usize, CliExit>)
        requires
            i < args@.len(),
            string_views(args@)[i as int].len() > 0,
        ensures
            moves_as(
                r,
                final(self)@,
                scan_short(
                    old(self)@,
                    string_views(args@)[i as int].skip(1),
                    0,
                    string_views(args@),
                    i as int,
                ),
            ),
    {
        let n = args.len();
        let ghost views = string_views(args@);
        let s = chars_of(args[i].as_str());
        assert(s@ == views[i as int]);
        let ghost opts = s@.skip(1);
        let ghost meant = scan_short(self@, opts, 0, views, i as int);
        let mut last: usize = i;
        let mut j: usize = 1;
        while j < s.len()
            invariant
                n == args@.len(),
                views == string_views(args@),
                i <= last < n,
                1 <= j <= s@.len(),
                opts == views[i as int].skip(1),
                opts == s@.skip(1),
                meant == scan_short(old(self)@, opts, 0, views, i as int),
                meant == scan_short(self@, opts, j - 1, views, last as int),
            decreases s@.len() - j,
        {
            let c = s[j];
            assert(opts[j - 1] == c);
            if let Some(opt) = find_short_flag(c) {
                if let Err(e) = self.flag(opt) {
                    return Err(e);
                }
            } else if c == 'f' {
                match require_arg(args, last, "-f") {
                    Ok(value) => {
                        self.pidfile = Some(value);
                        assert(last + 1 < n);
                        last = last + 1;
                    },
                    Err(e) => {
                        return Err(e);
                    },
                }
            } else if c == 's' {
                let value = if j + 1 < s.len() {
                    assert(s@.subrange(j + 1, s@.len() as int) =~= opts.skip(j as int));
                    string_of(&s, j + 1, s.len())
                } else {
                    match require_arg(args, last, "-s") {
                        Ok(value) => {
                            assert(last + 1 < n);
                            last = last + 1;
                            value
                        },
                        Err(e) => {
                            return Err(e);
                        },
                    }
                };
                return match self.set_break_byte(value.as_str()) {
                    Ok(_) => Ok(last),
                    Err(e) => Err(e),
                };
            } else {
                let letter = string_of(&s, j, j + 1);
                assert(letter@ =~= seq![c]);
                return Err(
                    CliExit::Usage(Some(three("Option -", letter.as_str(), " not recognized"))),
                );
            }
            j = j + 1;
        }
        Ok(last)
    }

    fn scan_arg(&mut self, args: &Vec<String>, i: usize) -> (r: Result<usize, CliExit>)
        requires
            i < args@.len(),
        ensures
            moves_as(r, final(self)@, scan_arg(old(self)@, string_views(args@), i as int)),
    {
        let s = args[i].as_str();
        assert(s@ == string_views(args@)[i as int]);
        if self.end_of_options {
            self.push_word(s);
            Ok(i)
        } else if str_eq(s, "--") {
            self.end_of_options = true;
            Ok(i)
        } else if !starts_with(s, "-") {
            self.word(s);
            Ok(i)
        } else if starts_with(s, "--") {
            self.scan_long(args, i)
        } else {
            proof {
                reveal_strlit("-");
            }
            self.scan_short(args, i)
        }
    }

    fn scan(&mut self, args: &Vec<String>) -> (r: Result<(), CliExit>)
        ensures
            ends_as(r, final(self)@, scan(old(self)@, string_views(args@), 1)),
    {
        let n = args.len();
        let ghost views = string_views(args@);
        let ghost meant = scan(self@, views, 1);
        let mut i: usize = 1;
        while i < n
            invariant
                1 <= i,
                n == args@.len(),
                views == string_views(args@),
                n > 0 ==> i <= n,
                meant == scan(old(self)@, views, 1),
                meant == scan(self@, views, i as int),
            decreases n - i,
        {
            let ghost before = self@;
            match self.scan_arg(args, i) {
                Ok(last) => {
                    proof {
                        lemma_scan_arg_moves_on(before, views, i as int);
                    }
                    i = last + 1;
                },
                Err(e) => {
                    return Err(e);
                },
            }
        }
        Ok(())
    }
}

/// The parts of `value` before and after its first colon, both of which must be there.
fn split_once_nonempty<'a>(value: &'a str, context: &str) -> (r: Result<
    (&'a str, &'a str),
    CliExit,
>)
    ensures
        match r {
            Ok((left, right)) => host_and_port(value@, context@) == Ok::<
                (Seq<char>, Seq<char>),
                ExitView,
            >((left@, right@)),
            Err(e) => host_and_port(value@, context@) == Err::<(Seq<char>, Seq<char>), ExitView>(
                e@,
            ),
        },
{
    match split_once(value, ':') {
        Some((left, right)) => {
            if left.unicode_len() == 0 || right.unicode_len() == 0 {
                Err(
                    CliExit::Usage(
                        Some(three(context, " must include non-empty host and port: ", value)),
                    ),
                )
            } else {
                Ok((left, right))
            }
        },
        None => Err(
            CliExit::Usage(Some(three(context, " must include host and port: ", value))),
        ),
    }
}

fn strip_either<'a>(s: &'a str, long: &str, short: &str) -> (r: Option<&'a str>)
    ensures
        match r {
            Some(rest) => after_either(s@, long@, short@) == Some(rest@),
            None => after_either(s@, long@, short@) is None,
        },
{
    match strip_prefix(s, long) {
        Some(rest) => Some(rest),
        None => strip_prefix(s, short),
    }
}

/// The host and the endpoint of `remote` in positional form. With `remote_host` the endpoint
/// is in that form already.
pub fn parse_remote_endpoint(remote: &str, remote_host: Option<&str>) -> (r: Result<
    (String, String),
    CliExit,
>)
    ensures
        ({
            let meant = remote_endpoint(
                remote@,
                match remote_host {
                    Some(host) => Some(host@),
                    None => None,
                },
            );
            match r {
                Ok((host, endpoint)) => meant == Ok::<(Seq<char>, Seq<char>), ExitView>(
                    (host@, endpoint@),
                ),
                Err(e) => meant == Err::<(Seq<char>, Seq<char>), ExitView>(e@),
            }
        }),
{
    if let Some(host) = remote_host {
        return Ok((host.to_owned(), remote.to_owned()));
    }
    if let Some(rest) = strip_either(remote, "tcp://", "tcp:") {
        return match split_once_nonempty(rest, "TCP remote endpoint") {
            Ok((host, port)) => Ok((host.to_owned(), port.to_owned())),
            Err(e) => Err(e),
        };
    }
    if let Some(rest) = strip_either(remote, "udp://", "udp:") {
        return match split_once_nonempty(rest, "UDP remote endpoint") {
            Ok((host, ports)) => Ok((host.to_owned(), two("udp:", ports))),
            Err(e) => Err(e),
        };
    }
    if let Some(rest) = strip_prefix(remote, "serial:") {
        return if rest.unicode_len() == 0 {
            Err(
                CliExit::Usage(
                    Some("serial remote endpoint must include a device path".to_owned()),
                ),
            )
        } else {
            Ok(("0".to_owned(), rest.to_owned()))
        };
    }
    if let Some(rest) = strip_prefix(remote, "tcplisten:") {
        return match split_once_nonempty(rest, "tcplisten remote endpoint") {
            Ok((host, port)) => Ok((host.to_owned(), two("tcplisten:", port))),
            Err(e) => Err(e),
        };
    }
    if let Some(rest) = strip_prefix(remote, "fifocon:") {
        return if rest.unicode_len() == 0 {
            Err(CliExit::Usage(Some("fifocon remote endpoint must include a path".to_owned())))
        } else {
            Ok(("0".to_owned(), two("fifocon:", rest)))
        };
    }
    Err(
        CliExit::Usage(
            Some(
                "Remote endpoint must start with tcp:, udp:, serial:, tcplisten:, or fifocon:".to_owned(),
            ),
        ),
    )
}

fn text_or<'a>(value: &'a Option<String>, default: &'a str) -> (r: &'a str)
    ensures
        r@ == or_default(opt_text(*value), default@),
{
    match value {
        Some(value) => value.as_str(),
        None => default,
    }
}

/// What is asked for, or the reason to end, matches what it is meant to be.
pub open spec fn asks_as(r: Result<CliArgs, CliExit>, meant: Result<ArgsView, ExitView>) -> bool {
    match r {
        Ok(args) => meant == Ok::<ArgsView, ExitView>(args@),
        Err(e) => meant == Err::<ArgsView, ExitView>(e@),
    }
}

impl CliScan {
    fn serial_split(self, default_device_exists: bool) -> (r: Result<CliArgs, CliExit>)
        ensures
            asks_as(r, self@.serial_split(default_device_exists)),
    {
        if self.legacy_args.len() > 0 || self.local.is_some() || self.remote.is_some()
            || self.remote_host.is_some() {
            return Err(
                CliExit::Usage(
                    Some("serial-split uses --device, --console-port, and --gdb-port".to_owned()),
                ),
            );
        }
        let device = match &self.device {
            Some(device) => device.as_str().to_owned(),
            None => match default_serial_device(default_device_exists) {
                Some(device) => device,
                None => {
                    return Err(
                        CliExit::TryHelp(
                            three(
                                "serial-split requires explicit --device because default device ",
                                DEFAULT_SERIAL_DEVICE,
                                " does not exist",
                            ),
                        ),
                    );
                },
            },
        };
        let console_port = match parse_port_number(
            text_or(&self.console_port, DEFAULT_CONSOLE_PORT),
        ) {
            Ok(n) => n,
            Err(e) => {
                return Err(e);
            },
        };
        let gdb_port = match parse_port_number(text_or(&self.gdb_port, DEFAULT_GDB_PORT)) {
            Ok(n) => n,
            Err(e) => {
                return Err(e);
            },
        };
        let local = three(
            decimal_of(console_port as u64).as_str(),
            "^",
            decimal_of(gdb_port as u64).as_str(),
        );
        let remote = three(device.as_str(), ",", text_or(&self.baud, DEFAULT_BAUD));
        let mut proxy_args: Vec<String> = Vec::new();
        proxy_args.push(local);
        proxy_args.push("0".to_owned());
        proxy_args.push(remote);
        assert(string_views(proxy_args@) =~= seq![local@, "0"@, remote@]);
        Ok(
            CliArgs {
                proxy_args,
                pidfile: self.pidfile,
                do_fork: self.do_fork,
                settings: self.settings,
            },
        )
    }

    fn proxy(self) -> (r: Result<CliArgs, CliExit>)
        ensures
            asks_as(r, self@.proxy()),
    {
        if self.legacy_args.len() > 0 {
            return Err(
                CliExit::TryHelp(
                    "proxy mode uses --local and --remote, not positional endpoints".to_owned(),
                ),
            );
        }
        let local = match self.local {
            Some(local) => local,
            None => {
                return Err(CliExit::TryHelp("proxy mode requires --local".to_owned()));
            },
        };
        let remote = match self.remote {
            Some(remote) => remote,
            None => {
                return Err(CliExit::TryHelp("proxy mode requires --remote".to_owned()));
            },
        };
        let remote_host = match &self.remote_host {
            Some(host) => Some(host.as_str()),
            None => None,
        };
        match parse_remote_endpoint(remote.as_str(), remote_host) {
            Ok((host, endpoint)) => {
                let mut proxy_args: Vec<String> = Vec::new();
                proxy_args.push(local);
                proxy_args.push(host);
                proxy_args.push(endpoint);
                assert(string_views(proxy_args@) =~= seq![local@, host@, endpoint@]);
                Ok(
                    CliArgs {
                        proxy_args,
                        pidfile: self.pidfile,
                        do_fork: self.do_fork,
                        settings: self.settings,
                    },
                )
            },
            Err(e) => Err(e),
        }
    }

    fn finish(self, default_device_exists: bool) -> (r: Result<CliArgs, CliExit>)
        ensures
            asks_as(r, self@.finish(default_device_exists)),
    {
        if self.mode == Some(CliMode::SerialSplit) {
            return self.serial_split(default_device_exists);
        }
        if self.mode == Some(CliMode::Proxy) || self.local.is_some() || self.remote.is_some()
            || self.remote_host.is_some() {
            return self.proxy();
        }
        if self.legacy_args.len() != 3 {
            return Err(CliExit::Usage(None));
        }
        Ok(
            CliArgs {
                proxy_args: self.legacy_args,
                pidfile: self.pidfile,
                do_fork: self.do_fork,
                settings: self.settings,
            },
        )
    }
}

/// Reads the command line `args`, whose first argument is the name of the program. The
/// result is what it asks for, or the reason why the proxy does not start.
pub fn parse_cli(args: &Vec<String>, default_device_exists: bool) -> (r: Result<CliArgs, CliExit>)
    ensures
        asks_as(r, command_line(string_views(args@), default_device_exists)),
{
    let mut c = CliScan::new();
    match c.scan(args) {
        Ok(_) => c.finish(default_device_exists),
        Err(e) => Err(e),
    }
}

/// A long option that stands alone does not take a value: one that is written behind it with
/// an equals sign ends the reading with a message that names the option.
pub proof fn lemma_flag_rejects_value(c: ScanView, args: Seq<Seq<char>>, i: int)
    requires
        0 <= i < args.len(),
        !c.end_of_options,
        has_prefix(args[i], "--"@),
        long_option(long_parts(args[i]).0) matches Some(opt) && opt.is_flag(),
        long_parts(args[i]).1 is Some,
    ensures
        scan(c, args, i) == Err::<ScanView, ExitView>(
            ExitView::Usage(
                Some("Option "@ + long_parts(args[i]).0 + " does not take a value"@),
            ),
        ),
{
    let s = args[i];
    lemma_split_first(s, '=');
    assert(s != "--"@) by {
        reveal_strlit("--");
        let (left, right) = split_first(s, '=')->0;
        assert(s[left.len() as int] == '=');
    }
    assert(has_prefix(s, "-"@)) by {
        reveal_strlit("--");
        reveal_strlit("-");
        assert(s.take(2)[0] == '-');
        assert(s.take(1) =~= "-"@);
    }
}

/// Behind a double dash everything is positional, whatever it looks like.
pub proof fn lemma_positional_after_double_dash(c: ScanView, args: Seq<Seq<char>>, i: int)
    requires
        0 <= i <= args.len(),
        c.end_of_options,
    ensures
        scan(c, args, i) == Ok::<ScanView, ExitView>(
            ScanView { legacy_args: c.legacy_args + args.skip(i), ..c },
        ),
    decreases args.len() - i,
{
    if i >= args.len() {
        assert(c.legacy_args + args.skip(i) =~= c.legacy_args);
    } else {
        let c1 = ScanView { legacy_args: c.legacy_args.push(args[i]), ..c };
        assert(scan_arg(c, args, i) == Ok::<(ScanView, int), ExitView>((c1, i)));
        lemma_positional_after_double_dash(c1, args, i + 1);
        assert(c1.legacy_args + args.skip(i + 1) =~= c.legacy_args + args.skip(i));
    }
}

/// `s` is neither an option nor a subcommand.
pub open spec fn is_plain_word(s: Seq<char>) -> bool {
    !has_prefix(s, "-"@) && s != "proxy"@ && s != "serial-split"@
}

/// Three plain words are the positional form: the local endpoint, the remote host and the
/// remote endpoint, with all settings at their defaults.
pub proof fn lemma_positional_form(
    program: Seq<char>,
    a: Seq<char>,
    b: Seq<char>,
    c: Seq<char>,
    exists_default: bool,
)
    requires
        is_plain_word(a),
        is_plain_word(b),
        is_plain_word(c),
    ensures
        command_line(seq![program, a, b, c], exists_default) == Ok::<ArgsView, ExitView>(
            ArgsView {
                proxy_args: seq![a, b, c],
                pidfile: None,
                do_fork: false,
                settings: SettingsView::defaults(),
            },
        ),
{
    let args = seq![program, a, b, c];
    reveal_strlit("-");
    reveal_strlit("--");
    let c0 = ScanView::start();
    let c1 = ScanView { legacy_args: seq![a], ..c0 };
    let c2 = ScanView { legacy_args: seq![a, b], ..c0 };
    let c3 = ScanView { legacy_args: seq![a, b, c], ..c0 };
    assert(c0.legacy_args.push(a) =~= c1.legacy_args);
    assert(c1.legacy_args.push(b) =~= c2.legacy_args);
    assert(c2.legacy_args.push(c) =~= c3.legacy_args);
    assert forall|s: Seq<char>| is_plain_word(s) implies s != "--"@ by {
        if s == "--"@ {
            assert(s.take(1) =~= "-"@);
        }
    }
    assert(scan_arg(c0, args, 1) == Ok::<(ScanView, int), ExitView>((c1, 1)));
    assert(scan_arg(c1, args, 2) == Ok::<(ScanView, int), ExitView>((c2, 2)));
    assert(scan_arg(c2, args, 3) == Ok::<(ScanView, int), ExitView>((c3, 3)));
    assert(scan(c3, args, 4) == Ok::<ScanView, ExitView>(c3));
    assert(scan(c2, args, 3) == Ok::<ScanView, ExitView>(c3));
    assert(scan(c1, args, 2) == Ok::<ScanView, ExitView>(c3));
    assert(scan(c0, args, 1) == Ok::<ScanView, ExitView>(c3));
}

/// A position in the arguments after a step, `d` further on.
spec fn shifted(r: Scanned, d: int) -> Scanned {
    match r {
        Ok((c, last)) => Ok((c, last + d)),
        Err(e) => Err(e),
    }
}

proof fn lemma_scan_short_shift(
    c: ScanView,
    opts: Seq<char>,
    j: int,
    a: Seq<Seq<char>>,
    i: int,
    b: Seq<Seq<char>>,
    d: int,
)
    requires
        0 <= i < a.len(),
        0 <= i + d < b.len(),
        a.skip(i) == b.skip(i + d),
    ensures
        scan_short(c, opts, j, b, i + d) == shifted(scan_short(c, opts, j, a, i), d),
    decreases opts.len() - j,
{
    assert(a.skip(i).len() == a.len() - i && b.skip(i + d).len() == b.len() - (i + d));
    if i + 1 < a.len() {
        assert(a.skip(i)[1] == b.skip(i + d)[1]);
        assert(a.skip(i + 1) =~= a.skip(i).skip(1));
        assert(b.skip(i + 1 + d) =~= b.skip(i + d).skip(1));
    }
    if j < opts.len() {
        if short_flag(opts[j]) is Some {
            if let Ok(c1) = c.flag(short_flag(opts[j])->0) {
                lemma_scan_short_shift(c1, opts, j + 1, a, i, b, d);
            }
        } else if opts[j] == 'f' && i + 1 < a.len() {
            let c1 = ScanView { pidfile: Some(a[i + 1]), ..c };
            lemma_scan_short_shift(c1, opts, j + 1, a, i + 1, b, d);
        }
    }
}

/// What was read before does not matter: arguments are read by what they are and by what
/// follows them, wherever they stand.
pub proof fn lemma_scan_goes_by_the_rest(
    c: ScanView,
    a: Seq<Seq<char>>,
    i: int,
    b: Seq<Seq<char>>,
    d: int,
)
    requires
        0 <= i <= a.len(),
        0 <= i + d <= b.len(),
        a.skip(i) == b.skip(i + d),
    ensures
        scan(c, a, i) == scan(c, b, i + d),
    decreases a.len() - i,
{
    assert(a.skip(i).len() == a.len() - i && b.skip(i + d).len() == b.len() - (i + d));
    if i < a.len() {
        assert(a.skip(i)[0] == b.skip(i + d)[0]);
        if i + 1 < a.len() {
            assert(a.skip(i)[1] == b.skip(i + d)[1]);
        }
        lemma_scan_short_shift(c, a[i].skip(1), 0, a, i, b, d);
        lemma_scan_arg_moves_on(c, a, i);
        lemma_scan_arg_moves_on(c, b, i + d);
        assert(scan_arg(c, b, i + d) == shifted(scan_arg(c, a, i), d));
        if let Ok((c1, last)) = scan_arg(c, a, i) {
            assert(a.skip(last + 1) =~= a.skip(i).skip(last + 1 - i));
            assert(b.skip(last + 1 + d) =~= b.skip(i + d).skip(last + 1 - i));
            lemma_scan_goes_by_the_rest(c1, a, last + 1, b, d);
        }
    }
}

/// A long option is read as its name, and as the value behind an equals sign.
pub proof fn lemma_long_name(name: Seq<char>, value: Seq<char>)
    requires
        has_prefix(name, "--"@),
        !name.contains('='),
        name != "--"@,
    ensures
        long_parts(name) == (name, None::<Seq<char>>),
        long_parts(name + seq!['='] + value) == (name, Some(value)),
        has_prefix(name, "-"@),
        has_prefix(name + seq!['='] + value, "-"@),
        has_prefix(name + seq!['='] + value, "--"@),
        name + seq!['='] + value != "--"@,
{
    reveal_strlit("--");
    reveal_strlit("-");
    let s = name + seq!['='] + value;
    let n = name.len() as int;
    lemma_first_at(name, '=', 0);
    lemma_first_at(s, '=', 0);
    assert(name.take(2)[0] == '-');
    assert(name.take(1) =~= "-"@);
    assert(s.take(2) =~= name.take(2));
    assert(s.take(1) =~= "-"@);
    assert(s[n] == '=');
    let at = first_at(s, '=', 0);
    if at < n {
        assert(name[at] == '=');
    }
    assert(at == n);
    assert(s.take(n) =~= name);
    assert(s.skip(n + 1) =~= value);
    let none = first_at(name, '=', 0);
    if none < n {
        assert(name[none] == '=');
    }
}

/// A value may stand behind an equals sign or in an argument of its own: the rest of the
/// command line is read alike in both forms.
pub proof fn lemma_value_forms_are_alike(
    c: ScanView,
    before: Seq<Seq<char>>,
    name: Seq<char>,
    value: Seq<char>,
    rest: Seq<Seq<char>>,
)
    requires
        !c.end_of_options,
        long_option(name) matches Some(opt) && !opt.is_flag(),
    ensures
        scan(c, before + seq![name + seq!['='] + value] + rest, before.len() as int) == scan(
            c,
            before + seq![name, value] + rest,
            before.len() as int,
        ),
{
    let i = before.len() as int;
    let a = before + seq![name + seq!['='] + value] + rest;
    let b = before + seq![name, value] + rest;
    lemma_valued_names(name);
    lemma_long_name(name, value);
    assert(a[i] == name + seq!['='] + value);
    assert(b[i] == name && b[i + 1] == value);
    let opt = long_option(name)->0;
    assert(scan_arg(c, a, i) == at(c.valued(opt, value), i));
    assert(scan_arg(c, b, i) == at(c.valued(opt, value), i + 1));
    if let Ok(c1) = c.valued(opt, value) {
        assert(a.skip(i + 1) =~= rest);
        assert(b.skip(i + 2) =~= rest);
        lemma_scan_goes_by_the_rest(c1, a, i + 1, b, 1);
    }
}

/// Every long option has a name behind two dashes.
pub proof fn lemma_valued_names(name: Seq<char>)
    requires
        long_option(name) is Some,
    ensures
        has_prefix(name, "--"@),
        !name.contains('='),
        name != "--"@,
{
    reveal_strlit("--");
    reveal_strlit("--help");
    reveal_strlit("--version");
    reveal_strlit("--verbose");
    reveal_strlit("--log-chars");
    reveal_strlit("--daemon");
    reveal_strlit("--pid-file");
    reveal_strlit("--no-break-on-connect");
    reveal_strlit("--no-gdb-filter");
    reveal_strlit("--break-byte");
    reveal_strlit("--telnet");
    reveal_strlit("--telnet-negotiation");
    reveal_strlit("--local");
    reveal_strlit("--remote");
    reveal_strlit("--remote-host");
    reveal_strlit("--device");
    reveal_strlit("--baud");
    reveal_strlit("--console-port");
    reveal_strlit("--gdb-port");
    reveal_strlit("--kgdb-port");
    assert(name.len() > 2);
    assert(name.take(2) =~= "--"@);
}

} // verus!
