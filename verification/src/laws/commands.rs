//! Laws of the command line: what each option and each form of endpoint asks for.
use vstd::prelude::*;
use crate::cli::{
    command_line, lemma_long_name, lemma_valued_names, long_option, remote_endpoint, scan_arg,
    scan_short, short_flag, ArgsView, CliMode, ExitView, LongOption, ScanView,
};
use crate::laws::endpoints::{
    lemma_digits_lack, lemma_port_numbers_read_back, lemma_split_joined, lemma_split_lacking,
};
use crate::number::{decimal, number_in};
use crate::setup::device_and_baud;
use crate::state::SettingsView;
use crate::text::has_prefix;

verus! {

proof fn lemma_option_names()
    ensures
        long_option("--help"@) == Some(LongOption::Help),
        long_option("--version"@) == Some(LongOption::Version),
        long_option("--verbose"@) == Some(LongOption::Verbose),
        long_option("--log-chars"@) == Some(LongOption::LogChars),
        long_option("--daemon"@) == Some(LongOption::Daemon),
        long_option("--pid-file"@) == Some(LongOption::PidFile),
        long_option("--no-break-on-connect"@) == Some(LongOption::NoBreakOnConnect),
        long_option("--no-gdb-filter"@) == Some(LongOption::NoGdbFilter),
        long_option("--break-byte"@) == Some(LongOption::BreakByte),
        long_option("--telnet"@) == Some(LongOption::Telnet),
        long_option("--telnet-negotiation"@) == Some(LongOption::Telnet),
        long_option("--local"@) == Some(LongOption::Local),
        long_option("--remote"@) == Some(LongOption::Remote),
        long_option("--remote-host"@) == Some(LongOption::RemoteHost),
        long_option("--device"@) == Some(LongOption::Device),
        long_option("--baud"@) == Some(LongOption::Baud),
        long_option("--console-port"@) == Some(LongOption::ConsolePort),
        long_option("--gdb-port"@) == Some(LongOption::GdbPort),
        long_option("--kgdb-port"@) == Some(LongOption::GdbPort),
{
    reveal_strlit("--help");
    reveal_strlit("--version");
    reveal_strlit("--verbose");
    reveal_strlit("--log-chars");
    reveal_strlit("--daemon");
    reveal_strlit("--pid-file");
    reveal_strlit("--no-break-on-connect");
    reveal_strlit("--no-gdb-filter");
    reveal_strlit("--break-byte");
    reveal_strlit("--telnet");
    reveal_strlit("--telnet-negotiation");
    reveal_strlit("--local");
    reveal_strlit("--remote");
    reveal_strlit("--remote-host");
    reveal_strlit("--device");
    reveal_strlit("--baud");
    reveal_strlit("--console-port");
    reveal_strlit("--gdb-port");
    reveal_strlit("--kgdb-port");
    assert("--help"@.len() == 6);
    assert("--version"@.len() == 9);
    assert("--verbose"@.len() == 9);
    assert("--log-chars"@.len() == 11);
    assert("--daemon"@.len() == 8);
    assert("--pid-file"@.len() == 10);
    assert("--no-break-on-connect"@.len() == 21);
    assert("--no-gdb-filter"@.len() == 15);
    assert("--break-byte"@.len() == 12);
    assert("--telnet"@.len() == 8);
    assert("--telnet-negotiation"@.len() == 20);
    assert("--local"@.len() == 7);
    assert("--remote"@.len() == 8);
    assert("--remote-host"@.len() == 13);
    assert("--device"@.len() == 8);
    assert("--baud"@.len() == 6);
    assert("--console-port"@.len() == 14);
    assert("--gdb-port"@.len() == 10);
    assert("--kgdb-port"@.len() == 11);
    assert("--help"@[2] != "--baud"@[2]);
    assert("--version"@[5] != "--verbose"@[5]);
    assert("--log-chars"@[2] != "--kgdb-port"@[2]);
    assert("--daemon"@[2] != "--telnet"@[2]);
    assert("--daemon"@[2] != "--remote"@[2]);
    assert("--daemon"@[3] != "--device"@[3]);
    assert("--telnet"@[2] != "--remote"@[2]);
    assert("--telnet"@[2] != "--device"@[2]);
    assert("--remote"@[2] != "--device"@[2]);
    assert("--pid-file"@[2] != "--gdb-port"@[2]);
}

proof fn lemma_long_flag(c: ScanView, args: Seq<Seq<char>>, i: int, opt: LongOption)
    requires
        0 <= i < args.len(),
        !c.end_of_options,
        long_option(args[i]) == Some(opt),
        opt.is_flag(),
    ensures
        scan_arg(c, args, i) == crate::cli::at(c.flag(opt), i),
{
    lemma_valued_names(args[i]);
    lemma_long_name(args[i], Seq::empty());
}

proof fn lemma_short_flag(c: ScanView, args: Seq<Seq<char>>, i: int, letter: char)
    requires
        0 <= i < args.len(),
        !c.end_of_options,
        args[i] == seq!['-', letter],
        letter != '-',
        short_flag(letter) is Some,
    ensures
        scan_arg(c, args, i) == crate::cli::at(c.flag(short_flag(letter)->0), i),
{
    reveal_strlit("-");
    reveal_strlit("--");
    let s = args[i];
    assert(s.take(1) =~= "-"@);
    assert(s[1] != "--"@[1]);
    if has_prefix(s, "--"@) {
        assert(s.take(2)[1] == '-');
    }
    assert(s.skip(1) =~= seq![letter]);
    reveal_with_fuel(scan_short, 3);
}

/// What each option that stands alone does, in its long and its short form: it sets the one
/// thing that it is for, leaves everything else, and takes no further argument.
pub proof fn lemma_what_flags_do(c: ScanView, args: Seq<Seq<char>>, i: int)
    requires
        0 <= i < args.len(),
        !c.end_of_options,
    ensures
        args[i] == "--help"@ || args[i] == "-h"@ ==> scan_arg(c, args, i) == Err::<
            (ScanView, int),
            ExitView,
        >(ExitView::Help),
        args[i] == "--version"@ ==> scan_arg(c, args, i) == Err::<(ScanView, int), ExitView>(
            ExitView::Version,
        ),
        args[i] == "--verbose"@ || args[i] == "-v"@ ==> scan_arg(c, args, i) == Ok::<
            (ScanView, int),
            ExitView,
        >((ScanView { settings: SettingsView { debug: true, ..c.settings }, ..c }, i)),
        args[i] == "--log-chars"@ || args[i] == "-d"@ ==> scan_arg(c, args, i) == Ok::<
            (ScanView, int),
            ExitView,
        >((ScanView { settings: SettingsView { logchar: true, ..c.settings }, ..c }, i)),
        args[i] == "--daemon"@ || args[i] == "-D"@ ==> scan_arg(c, args, i) == Ok::<
            (ScanView, int),
            ExitView,
        >((ScanView { do_fork: true, ..c }, i)),
        args[i] == "--no-break-on-connect"@ || args[i] == "-B"@ ==> scan_arg(c, args, i) == Ok::<
            (ScanView, int),
            ExitView,
        >((ScanView { settings: SettingsView { break_on_connect: false, ..c.settings }, ..c }, i)),
        args[i] == "--no-gdb-filter"@ || args[i] == "-G"@ ==> scan_arg(c, args, i) == Ok::<
            (ScanView, int),
            ExitView,
        >((ScanView { settings: SettingsView { gdb_split: false, ..c.settings }, ..c }, i)),
        args[i] == "--telnet"@ || args[i] == "--telnet-negotiation"@ ==> scan_arg(c, args, i)
            == Ok::<(ScanView, int), ExitView>(
            (ScanView { settings: SettingsView { telnet_negotiation: true, ..c.settings }, ..c }, i),
        ),
{
    lemma_option_names();
    if let Some(opt) = long_option(args[i]) {
        if opt.is_flag() {
            lemma_long_flag(c, args, i, opt);
        }
    }
    reveal_strlit("-h");
    reveal_strlit("-v");
    reveal_strlit("-d");
    reveal_strlit("-D");
    reveal_strlit("-B");
    reveal_strlit("-G");
    if args[i] == "-h"@ {
        assert(args[i] =~= seq!['-', 'h']);
        lemma_short_flag(c, args, i, 'h');
    }
    if args[i] == "-v"@ {
        assert(args[i] =~= seq!['-', 'v']);
        lemma_short_flag(c, args, i, 'v');
    }
    if args[i] == "-d"@ {
        assert(args[i] =~= seq!['-', 'd']);
        lemma_short_flag(c, args, i, 'd');
    }
    if args[i] == "-D"@ {
        assert(args[i] =~= seq!['-', 'D']);
        lemma_short_flag(c, args, i, 'D');
    }
    if args[i] == "-B"@ {
        assert(args[i] =~= seq!['-', 'B']);
        lemma_short_flag(c, args, i, 'B');
    }
    if args[i] == "-G"@ {
        assert(args[i] =~= seq!['-', 'G']);
        lemma_short_flag(c, args, i, 'G');
    }
}

proof fn lemma_long_valued(c: ScanView, args: Seq<Seq<char>>, i: int, opt: LongOption)
    requires
        0 <= i < args.len() - 1,
        !c.end_of_options,
        long_option(args[i]) == Some(opt),
        !opt.is_flag(),
    ensures
        scan_arg(c, args, i) == crate::cli::at(c.valued(opt, args[i + 1]), i + 1),
{
    lemma_valued_names(args[i]);
    lemma_long_name(args[i], Seq::empty());
}

/// What each option with a value does: the next argument is its value, whatever that is, and
/// is kept as it stands in the one place that it is for. Options of a serial line ask for the
/// subcommand that splits one.
pub proof fn lemma_what_valued_options_do(c: ScanView, args: Seq<Seq<char>>, i: int)
    requires
        0 <= i < args.len() - 1,
        !c.end_of_options,
    ensures
        args[i] == "--local"@ ==> scan_arg(c, args, i) == Ok::<(ScanView, int), ExitView>(
            (ScanView { local: Some(args[i + 1]), ..c }, i + 1),
        ),
        args[i] == "--remote"@ ==> scan_arg(c, args, i) == Ok::<(ScanView, int), ExitView>(
            (ScanView { remote: Some(args[i + 1]), ..c }, i + 1),
        ),
        args[i] == "--remote-host"@ ==> scan_arg(c, args, i) == Ok::<(ScanView, int), ExitView>(
            (ScanView { remote_host: Some(args[i + 1]), ..c }, i + 1),
        ),
        args[i] == "--pid-file"@ || args[i] == "-f"@ ==> scan_arg(c, args, i) == Ok::<
            (ScanView, int),
            ExitView,
        >((ScanView { pidfile: Some(args[i + 1]), ..c }, i + 1)),
        args[i] == "--device"@ ==> scan_arg(c, args, i) == Ok::<(ScanView, int), ExitView>(
            (
                ScanView { mode: Some(CliMode::SerialSplit), device: Some(args[i + 1]), ..c },
                i + 1,
            ),
        ),
        args[i] == "--baud"@ ==> scan_arg(c, args, i) == Ok::<(ScanView, int), ExitView>(
            (ScanView { mode: Some(CliMode::SerialSplit), baud: Some(args[i + 1]), ..c }, i + 1),
        ),
        args[i] == "--console-port"@ ==> scan_arg(c, args, i) == Ok::<(ScanView, int), ExitView>(
            (
                ScanView {
                    mode: Some(CliMode::SerialSplit),
                    console_port: Some(args[i + 1]),
                    ..c
                },
                i + 1,
            ),
        ),
        args[i] == "--gdb-port"@ || args[i] == "--kgdb-port"@ ==> scan_arg(c, args, i) == Ok::<
            (ScanView, int),
            ExitView,
        >(
            (ScanView { mode: Some(CliMode::SerialSplit), gdb_port: Some(args[i + 1]), ..c }, i + 1),
        ),
        forall|n: nat|
            (args[i] == "--break-byte"@ || args[i] == "-s"@) && args[i + 1] == #[trigger] decimal(n)
                ==> scan_arg(c, args, i) == if n < 256 {
                Ok::<(ScanView, int), ExitView>(
                    (
                        ScanView {
                            settings: SettingsView { break_str: seq![n as u8], ..c.settings },
                            ..c
                        },
                        i + 1,
                    ),
                )
            } else {
                Err(ExitView::Usage(Some("Invalid break byte: "@ + args[i + 1])))
            },
{
    lemma_option_names();
    reveal_strlit("-f");
    reveal_strlit("-s");
    reveal_strlit("-");
    reveal_strlit("--");
    reveal_strlit("--break-byte");
    let s = args[i];
    if let Some(opt) = long_option(s) {
        if !opt.is_flag() {
            lemma_long_valued(c, args, i, opt);
        }
    }
    if s == "-f"@ || s == "-s"@ {
        assert(s.take(1) =~= "-"@);
        assert(s[1] != "--"@[1]);
        if has_prefix(s, "--"@) {
            assert(s.take(2)[1] == '-');
        }
        reveal_with_fuel(scan_short, 3);
        assert(s.skip(1) =~= seq![s[1]]);
    }
    assert forall|n: nat|
        (args[i] == "--break-byte"@ || args[i] == "-s"@) && args[i + 1] == #[trigger] decimal(
            n,
        ) implies scan_arg(c, args, i) == if n < 256 {
        Ok::<(ScanView, int), ExitView>(
            (
                ScanView {
                    settings: SettingsView { break_str: seq![n as u8], ..c.settings },
                    ..c
                },
                i + 1,
            ),
        )
    } else {
        Err(ExitView::Usage(Some("Invalid break byte: "@ + args[i + 1])))
    } by {
        lemma_decimal_value(n, 255);
    }
}

proof fn lemma_decimal_value(n: nat, max: int)
    ensures
        number_in(decimal(n), 10, max) == if n <= max {
            Some(n as int)
        } else {
            None
        },
{
    crate::number::lemma_decimal(n);
    lemma_digits_lack(n, '+');
}

/// An option that takes an argument, and stands last, is an error that names it.
pub proof fn lemma_missing_argument(c: ScanView, args: Seq<Seq<char>>)
    requires
        args.len() > 0,
        !c.end_of_options,
        long_option(args.last()) matches Some(opt) && !opt.is_flag(),
    ensures
        scan_arg(c, args, args.len() - 1) == Err::<(ScanView, int), ExitView>(
            ExitView::Usage(Some("No argument specified for "@ + args.last())),
        ),
{
    lemma_valued_names(args.last());
    lemma_long_name(args.last(), Seq::empty());
}

/// The letter stands for an option of its own that takes no argument and does not end the
/// reading.
pub open spec fn is_letter(x: char) -> bool {
    x == 'd' || x == 'v' || x == 'D' || x == 'G' || x == 'B'
}

/// Letters may be written together: that is as if each stood alone.
pub proof fn lemma_letters_combine(c: ScanView, x: char, y: char)
    requires
        !c.end_of_options,
        is_letter(x),
        is_letter(y),
    ensures
        ({
            let first = scan_arg(c, seq![seq!['-', x]], 0);
            &&& first is Ok
            &&& scan_arg(c, seq![seq!['-', x, y]], 0) == scan_arg(
                (first->Ok_0).0,
                seq![seq!['-', y]],
                0,
            )
        }),
{
    reveal_strlit("-");
    reveal_strlit("--");
    lemma_short_flag(c, seq![seq!['-', x]], 0, x);
    let c1 = (scan_arg(c, seq![seq!['-', x]], 0)->Ok_0).0;
    lemma_short_flag(c1, seq![seq!['-', y]], 0, y);
    let s = seq!['-', x, y];
    assert(s.take(1) =~= "-"@);
    assert(s != "--"@);
    if has_prefix(s, "--"@) {
        assert(s.take(2)[1] == '-');
    }
    assert(s.skip(1) =~= seq![x, y]);
    reveal_with_fuel(scan_short, 4);
}

/// A word is the subcommand if it is the first that names one; any other word is positional,
/// and so is everything behind a double dash. A single dash is passed over.
pub proof fn lemma_what_words_do(c: ScanView, args: Seq<Seq<char>>, i: int)
    requires
        0 <= i < args.len(),
    ensures
        !c.end_of_options && args[i] == "--"@ ==> scan_arg(c, args, i) == Ok::<
            (ScanView, int),
            ExitView,
        >((ScanView { end_of_options: true, ..c }, i)),
        c.end_of_options ==> scan_arg(c, args, i) == Ok::<(ScanView, int), ExitView>(
            (ScanView { legacy_args: c.legacy_args.push(args[i]), ..c }, i),
        ),
        !c.end_of_options && c.mode is None && args[i] == "proxy"@ ==> scan_arg(c, args, i) == Ok::<
            (ScanView, int),
            ExitView,
        >((ScanView { mode: Some(CliMode::Proxy), ..c }, i)),
        !c.end_of_options && c.mode is None && args[i] == "serial-split"@ ==> scan_arg(c, args, i)
            == Ok::<(ScanView, int), ExitView>(
            (ScanView { mode: Some(CliMode::SerialSplit), ..c }, i),
        ),
        !c.end_of_options && (args[i].len() == 0 || args[i][0] != '-') && (c.mode is Some || (
        args[i] != "proxy"@ && args[i] != "serial-split"@)) ==> scan_arg(c, args, i) == Ok::<
            (ScanView, int),
            ExitView,
        >((ScanView { legacy_args: c.legacy_args.push(args[i]), ..c }, i)),
        !c.end_of_options && args[i] == seq!['-'] ==> scan_arg(c, args, i) == Ok::<
            (ScanView, int),
            ExitView,
        >((c, i)),
{
    reveal_strlit("--");
    reveal_strlit("-");
    reveal_strlit("proxy");
    reveal_strlit("serial-split");
    if has_prefix(args[i], "-"@) {
        assert(args[i].take(1)[0] == '-');
    }
    if args[i] == seq!['-'] {
        assert(args[i].take(1) =~= "-"@);
        assert(args[i].skip(1) =~= Seq::<char>::empty());
    }
    assert("proxy"@[0] != "serial-split"@[0]);
}

/// Splitting a serial line asks for the ports, the device and the rate that were given: the
/// console port with the debugger port as a debugger port, any host, and the device with its
/// rate. Settings are handed on.
pub proof fn lemma_serial_split_asks_for(
    c: ScanView,
    console: nat,
    gdb: nat,
    device: Seq<char>,
    baud: Seq<char>,
    exists: bool,
)
    requires
        c.mode == Some(CliMode::SerialSplit),
        c.legacy_args.len() == 0,
        c.local is None,
        c.remote is None,
        c.remote_host is None,
        c.console_port == Some(decimal(console)),
        c.gdb_port == Some(decimal(gdb)),
        c.device == Some(device),
        c.baud == Some(baud),
    ensures
        console < 65536 && gdb < 65536 ==> c.finish(exists) == Ok::<ArgsView, ExitView>(
            ArgsView {
                proxy_args: seq![
                    decimal(console) + seq!['^'] + decimal(gdb),
                    seq!['0'],
                    device + seq![','] + baud,
                ],
                pidfile: c.pidfile,
                do_fork: c.do_fork,
                settings: c.settings,
            },
        ),
        console >= 65536 ==> c.finish(exists) == Err::<ArgsView, ExitView>(
            ExitView::Fail("Invalid port number: "@ + decimal(console)),
        ),
        console < 65536 && gdb >= 65536 ==> c.finish(exists) == Err::<ArgsView, ExitView>(
            ExitView::Fail("Invalid port number: "@ + decimal(gdb)),
        ),
{
    lemma_port_numbers_read_back(console);
    lemma_port_numbers_read_back(gdb);
    reveal_strlit("^");
    reveal_strlit(",");
    reveal_strlit("0");
    assert("^"@ =~= seq!['^']);
    assert(","@ =~= seq![',']);
    assert("0"@ =~= seq!['0']);
    if console < 65536 && gdb < 65536 {
        assert(c.finish(exists)->Ok_0.proxy_args =~= seq![
            decimal(console) + seq!['^'] + decimal(gdb),
            seq!['0'],
            device + seq![','] + baud,
        ]);
    }
}

/// Without anything given, the console is on port 4440, the debugger on port 4441, and the
/// line is the first USB serial device at 115200 bits per second, if that exists.
pub proof fn lemma_serial_split_defaults(program: Seq<char>)
    ensures
        ({
            let r = command_line(seq![program, "serial-split"@], true);
            &&& r is Ok
            &&& r->Ok_0.proxy_args == seq!["4440^4441"@, "0"@, "/dev/ttyUSB0,115200"@]
            &&& r->Ok_0.pidfile is None && !r->Ok_0.do_fork
            &&& !r->Ok_0.settings.debug && !r->Ok_0.settings.logchar
            &&& r->Ok_0.settings.break_on_connect && r->Ok_0.settings.gdb_split
            &&& !r->Ok_0.settings.telnet_negotiation
            &&& r->Ok_0.settings.break_str == seq![0xffu8, 0xf3u8, 0x67u8]
        }),
        command_line(seq![program, "serial-split"@], false) is Err,
{
    let args = seq![program, "serial-split"@];
    let c0 = ScanView::start();
    let c1 = ScanView { mode: Some(CliMode::SerialSplit), ..c0 };
    reveal_strlit("serial-split");
    lemma_what_words_do(c0, args, 1);
    assert(crate::cli::scan(c1, args, 2) == Ok::<ScanView, ExitView>(c1));
    assert(crate::cli::scan(c0, args, 1) == Ok::<ScanView, ExitView>(c1));
    reveal_strlit("4440");
    reveal_strlit("4441");
    reveal_strlit("4440^4441");
    reveal_strlit("0");
    reveal_strlit("^");
    reveal_strlit(",");
    reveal_strlit("/dev/ttyUSB0");
    reveal_strlit("115200");
    reveal_strlit("/dev/ttyUSB0,115200");
    reveal_with_fuel(decimal, 5);
    assert(decimal(4440) =~= "4440"@);
    assert(decimal(4441) =~= "4441"@);
    lemma_port_numbers_read_back(4440);
    lemma_port_numbers_read_back(4441);
    let made = c1.serial_split(true)->Ok_0.proxy_args;
    assert(made[0] =~= "4440^4441"@);
    assert(made[2] =~= "/dev/ttyUSB0,115200"@);
    assert(made =~= seq!["4440^4441"@, "0"@, "/dev/ttyUSB0,115200"@]);
}

/// The subcommand `proxy` asks for the local endpoint as it is given, and for the host and the
/// endpoint of the remote. With a host of its own the remote is taken as it is given.
pub proof fn lemma_proxy_asks_for(c: ScanView, exists: bool)
    requires
        c.mode != Some(CliMode::SerialSplit),
        c.mode == Some(CliMode::Proxy) || c.local is Some || c.remote is Some || c.remote_host
            is Some,
    ensures
        c.legacy_args.len() > 0 || c.local is None || c.remote is None ==> c.finish(exists) is Err,
        c.legacy_args.len() == 0 && c.local is Some && c.remote is Some ==> match remote_endpoint(
            c.remote->0,
            c.remote_host,
        ) {
            Ok((host, remote)) => c.finish(exists) == Ok::<ArgsView, ExitView>(
                ArgsView {
                    proxy_args: seq![c.local->0, host, remote],
                    pidfile: c.pidfile,
                    do_fork: c.do_fork,
                    settings: c.settings,
                },
            ),
            Err(e) => c.finish(exists) == Err::<ArgsView, ExitView>(e),
        },
        c.remote is Some && c.remote_host is Some ==> remote_endpoint(c.remote->0, c.remote_host)
            == Ok::<(Seq<char>, Seq<char>), ExitView>((c.remote_host->0, c.remote->0)),
{
}

/// The positional form takes exactly three words and hands them on as they are.
pub proof fn lemma_positional_asks_for(c: ScanView, exists: bool)
    requires
        c.mode is None,
        c.local is None,
        c.remote is None,
        c.remote_host is None,
    ensures
        c.legacy_args.len() == 3 ==> c.finish(exists) == Ok::<ArgsView, ExitView>(
            ArgsView {
                proxy_args: c.legacy_args,
                pidfile: c.pidfile,
                do_fork: c.do_fork,
                settings: c.settings,
            },
        ),
        c.legacy_args.len() != 3 ==> c.finish(exists) == Err::<ArgsView, ExitView>(
            ExitView::Usage(None),
        ),
{
}

proof fn lemma_behind(prefix: Seq<char>, rest: Seq<char>)
    ensures
        has_prefix(prefix + rest, prefix),
        (prefix + rest).skip(prefix.len() as int) == rest,
{
    assert((prefix + rest).take(prefix.len() as int) =~= prefix);
    assert((prefix + rest).skip(prefix.len() as int) =~= rest);
}

/// A remote names its host and its port: in each form the host and the endpoint in positional
/// form are what was written, a serial device and a FIFO standing on any host.
pub proof fn lemma_remote_forms(host: Seq<char>, port: Seq<char>)
    requires
        host.len() > 0,
        port.len() > 0,
        !host.contains(':'),
        host[0] != '/',
    ensures
        remote_endpoint("tcp:"@ + (host + seq![':'] + port), None) == Ok::<
            (Seq<char>, Seq<char>),
            ExitView,
        >((host, port)),
        remote_endpoint("tcp://"@ + (host + seq![':'] + port), None) == Ok::<
            (Seq<char>, Seq<char>),
            ExitView,
        >((host, port)),
        remote_endpoint("udp:"@ + (host + seq![':'] + port), None) == Ok::<
            (Seq<char>, Seq<char>),
            ExitView,
        >((host, "udp:"@ + port)),
        remote_endpoint("udp://"@ + (host + seq![':'] + port), None) == Ok::<
            (Seq<char>, Seq<char>),
            ExitView,
        >((host, "udp:"@ + port)),
        remote_endpoint("tcplisten:"@ + (host + seq![':'] + port), None) == Ok::<
            (Seq<char>, Seq<char>),
            ExitView,
        >((host, "tcplisten:"@ + port)),
        remote_endpoint("serial:"@ + port, None) == Ok::<(Seq<char>, Seq<char>), ExitView>(
            (seq!['0'], port),
        ),
        remote_endpoint("fifocon:"@ + port, None) == Ok::<(Seq<char>, Seq<char>), ExitView>(
            (seq!['0'], "fifocon:"@ + port),
        ),
{
    reveal_strlit("tcp:");
    reveal_strlit("tcp://");
    reveal_strlit("udp:");
    reveal_strlit("udp://");
    reveal_strlit("tcplisten:");
    reveal_strlit("serial:");
    reveal_strlit("fifocon:");
    reveal_strlit("0");
    assert("0"@ =~= seq!['0']);
    let rest = host + seq![':'] + port;
    lemma_split_joined(host, ':', port);
    lemma_behind("tcp:"@, rest);
    lemma_behind("tcp://"@, rest);
    lemma_behind("udp:"@, rest);
    lemma_behind("udp://"@, rest);
    lemma_behind("tcplisten:"@, rest);
    lemma_behind("serial:"@, port);
    lemma_behind("fifocon:"@, port);
    assert(rest[0] == host[0]);
    let t = "tcp:"@ + rest;
    if has_prefix(t, "tcp://"@) {
        assert(t.take(6)[4] == '/');
        assert(t[4] == rest[0]);
    }
    let u = "udp:"@ + rest;
    lemma_first_differs(u, 't');
    if has_prefix(u, "udp://"@) {
        assert(u.take(6)[4] == '/');
        assert(u[4] == rest[0]);
    }
    let u2 = "udp://"@ + rest;
    lemma_first_differs(u2, 't');
    let l = "tcplisten:"@ + rest;
    if has_prefix(l, "tcp:"@) {
        assert(l.take(4)[3] == ':');
        assert(l[3] == 'l');
    }
    if has_prefix(l, "tcp://"@) {
        assert(l.take(6)[3] == ':');
        assert(l[3] == 'l');
    }
    lemma_first_differs(l, 'u');
    if has_prefix(l, "serial:"@) {
        assert(l.take(7)[0] == 's');
    }
    let s = "serial:"@ + port;
    lemma_first_differs(s, 't');
    lemma_first_differs(s, 'u');
    let f = "fifocon:"@ + port;
    lemma_first_differs(f, 't');
    lemma_first_differs(f, 'u');
    if has_prefix(f, "serial:"@) {
        assert(f.take(7)[0] == 's');
    }
}

proof fn lemma_first_differs(s: Seq<char>, c: char)
    requires
        s.len() > 0,
        s[0] != c,
        c == 't' || c == 'u',
    ensures
        c == 't' ==> !has_prefix(s, "tcp:"@) && !has_prefix(s, "tcp://"@) && !has_prefix(
            s,
            "tcplisten:"@,
        ),
        c == 'u' ==> !has_prefix(s, "udp:"@) && !has_prefix(s, "udp://"@),
{
    reveal_strlit("tcp:");
    reveal_strlit("tcp://");
    reveal_strlit("tcplisten:");
    reveal_strlit("udp:");
    reveal_strlit("udp://");
    if s.len() >= 4 {
        assert(s.take(4)[0] == s[0]);
    }
    if s.len() >= 6 {
        assert(s.take(6)[0] == s[0]);
    }
    if s.len() >= 10 {
        assert(s.take(10)[0] == s[0]);
    }
}

/// A remote without host and port where they are needed, or of no known form, is refused.
pub proof fn lemma_bad_remote_forms(rest: Seq<char>, other: Seq<char>)
    requires
        !rest.contains(':'),
        rest.len() == 0 || rest[0] != '/',
        other.len() > 0,
        other[0] != 't' && other[0] != 'u' && other[0] != 's' && other[0] != 'f',
    ensures
        remote_endpoint("tcp:"@ + rest, None) is Err,
        remote_endpoint("udp:"@ + rest, None) is Err,
        remote_endpoint("tcplisten:"@ + rest, None) is Err,
        remote_endpoint("serial:"@, None) is Err,
        remote_endpoint("fifocon:"@, None) is Err,
        remote_endpoint(other, None) is Err,
{
    reveal_strlit("tcp:");
    reveal_strlit("tcp://");
    reveal_strlit("udp:");
    reveal_strlit("udp://");
    reveal_strlit("tcplisten:");
    reveal_strlit("serial:");
    reveal_strlit("fifocon:");
    lemma_split_lacking(rest, ':');
    lemma_behind("tcp:"@, rest);
    lemma_behind("udp:"@, rest);
    lemma_behind("tcplisten:"@, rest);
    let t = "tcp:"@ + rest;
    if has_prefix(t, "tcp://"@) {
        assert(t.take(6)[4] == '/');
        assert(t[4] == rest[0]);
    }
    let u = "udp:"@ + rest;
    lemma_first_differs(u, 't');
    if has_prefix(u, "udp://"@) {
        assert(u.take(6)[4] == '/');
        assert(u[4] == rest[0]);
    }
    let l = "tcplisten:"@ + rest;
    if has_prefix(l, "tcp:"@) {
        assert(l.take(4)[3] == ':');
        assert(l[3] == 'l');
    }
    if has_prefix(l, "tcp://"@) {
        assert(l.take(6)[3] == ':');
        assert(l[3] == 'l');
    }
    lemma_first_differs(l, 'u');
    if has_prefix(l, "serial:"@) {
        assert(l.take(7)[0] == 's');
    }
    lemma_first_differs("serial:"@, 't');
    lemma_first_differs("serial:"@, 'u');
    lemma_first_differs("fifocon:"@, 't');
    lemma_first_differs("fifocon:"@, 'u');
    if has_prefix("fifocon:"@, "serial:"@) {
        assert("fifocon:"@.take(7)[0] == 's');
    }
    lemma_first_differs(other, 't');
    lemma_first_differs(other, 'u');
    if has_prefix(other, "serial:"@) {
        assert(other.take(7)[0] == 's');
    }
    if has_prefix(other, "fifocon:"@) {
        assert(other.take(8)[0] == 'f');
    }
}

/// The device and the rate of a split line are what was written, and a line without a rate is
/// at the default one.
pub proof fn lemma_device_and_rate(device: Seq<char>, rate: Seq<char>)
    requires
        !device.contains(','),
    ensures
        device_and_baud(device + seq![','] + rate) == (device, rate),
        device_and_baud(device) == (device, "default"@),
{
    lemma_split_joined(device, ',', rate);
    lemma_split_lacking(device, ',');
}

proof fn lemma_short_rest(c: ScanView, opts: Seq<char>, j: int, args: Seq<Seq<char>>, i: int)
    requires
        1 <= j <= opts.len(),
    ensures
        scan_short(c, opts, j, args, i) == scan_short(c, opts.skip(1), j - 1, args, i),
    decreases opts.len() - j,
{
    let rest = opts.skip(1);
    if j < opts.len() {
        assert(rest[j - 1] == opts[j]);
        assert(rest.skip(j) =~= opts.skip(j + 1));
        if short_flag(opts[j]) is Some {
            if let Ok(c1) = c.flag(short_flag(opts[j])->0) {
                lemma_short_rest(c1, opts, j + 1, args, i);
            }
        } else if opts[j] == 'f' && i + 1 < args.len() {
            lemma_short_rest(
                ScanView { pidfile: Some(args[i + 1]), ..c },
                opts,
                j + 1,
                args,
                i + 1,
            );
        }
    }
}

proof fn lemma_short_group(c: ScanView, args: Seq<Seq<char>>, i: int)
    requires
        0 <= i < args.len(),
        !c.end_of_options,
        args[i].len() >= 2,
        args[i][0] == '-',
        args[i][1] != '-',
    ensures
        scan_arg(c, args, i) == scan_short(c, args[i].skip(1), 0, args, i),
{
    reveal_strlit("-");
    reveal_strlit("--");
    let s = args[i];
    assert(s.take(1) =~= "-"@);
    assert(s[1] != "--"@[1]);
    if has_prefix(s, "--"@) {
        assert(s.take(2)[1] == '-');
    }
}

/// A letter in front of others is as if it stood alone before them, whatever the others are and
/// take.
pub proof fn lemma_first_letter_stands_alone(
    c: ScanView,
    args: Seq<Seq<char>>,
    i: int,
    x: char,
    rest: Seq<char>,
)
    requires
        0 <= i < args.len(),
        !c.end_of_options,
        is_letter(x),
        rest.len() > 0,
        rest[0] != '-',
        args[i] == seq!['-', x] + rest,
    ensures
        ({
            let first = scan_arg(c, seq![seq!['-', x]], 0);
            &&& first is Ok
            &&& scan_arg(c, args, i) == scan_arg(
                (first->Ok_0).0,
                args.update(i, seq!['-'] + rest),
                i,
            )
        }),
{
    lemma_short_flag(c, seq![seq!['-', x]], 0, x);
    let c1 = (scan_arg(c, seq![seq!['-', x]], 0)->Ok_0).0;
    let s = args[i];
    let other = args.update(i, seq!['-'] + rest);
    lemma_short_group(c, args, i);
    lemma_short_group(c1, other, i);
    let opts = s.skip(1);
    assert(opts[0] == x);
    assert(opts.skip(1) =~= rest);
    assert(other[i].skip(1) =~= rest);
    lemma_short_rest(c1, opts, 1, args, i);
    lemma_same_arguments(c1, rest, 0, args, other, i);
}

proof fn lemma_same_arguments(
    c: ScanView,
    opts: Seq<char>,
    j: int,
    a: Seq<Seq<char>>,
    b: Seq<Seq<char>>,
    i: int,
)
    requires
        0 <= i < a.len(),
        a.len() == b.len(),
        forall|k: int| i < k < a.len() ==> a[k] == b[k],
    ensures
        scan_short(c, opts, j, a, i) == scan_short(c, opts, j, b, i),
    decreases opts.len() - j,
{
    if j < opts.len() {
        if short_flag(opts[j]) is Some {
            if let Ok(c1) = c.flag(short_flag(opts[j])->0) {
                lemma_same_arguments(c1, opts, j + 1, a, b, i);
            }
        } else if opts[j] == 'f' && i + 1 < a.len() {
            lemma_same_arguments(
                ScanView { pidfile: Some(a[i + 1]), ..c },
                opts,
                j + 1,
                a,
                b,
                i + 1,
            );
        }
    }
}

/// The break byte may be written right behind its letter.
pub proof fn lemma_break_byte_behind_its_letter(
    c: ScanView,
    args: Seq<Seq<char>>,
    i: int,
    n: nat,
)
    requires
        0 <= i < args.len(),
        !c.end_of_options,
        args[i] == seq!['-', 's'] + decimal(n),
    ensures
        scan_arg(c, args, i) == if n < 256 {
            Ok::<(ScanView, int), ExitView>(
                (
                    ScanView {
                        settings: SettingsView { break_str: seq![n as u8], ..c.settings },
                        ..c
                    },
                    i,
                ),
            )
        } else {
            Err(ExitView::Usage(Some("Invalid break byte: "@ + decimal(n))))
        },
{
    lemma_decimal_value(n, 255);
    crate::number::lemma_decimal(n);
    lemma_short_group(c, args, i);
    let opts = args[i].skip(1);
    assert(opts[0] == 's');
    assert(opts.skip(1) =~= decimal(n));
    reveal_with_fuel(scan_short, 2);
}

/// A break byte that is no number is an error that shows it.
pub proof fn lemma_bad_break_byte(c: ScanView, value: Seq<char>, k: int)
    requires
        0 <= k < value.len(),
        !('0' <= value[k] <= '9'),
        value[k] != '+' || k > 0,
    ensures
        c.break_byte(value) == Err::<ScanView, ExitView>(
            ExitView::Usage(Some("Invalid break byte: "@ + value)),
        ),
{
    crate::laws::endpoints::lemma_no_number(value, k, 255);
}

/// Options that are not known, and letters that are none, are errors that name them.
pub proof fn lemma_unknown_options(c: ScanView, args: Seq<Seq<char>>, i: int)
    requires
        0 <= i < args.len(),
        !c.end_of_options,
    ensures
        has_prefix(args[i], "--"@) && args[i] != "--"@ && !args[i].contains('=') && long_option(
            args[i],
        ) is None ==> scan_arg(c, args, i) == Err::<(ScanView, int), ExitView>(
            ExitView::Usage(Some("Option "@ + args[i] + " not recognized"@)),
        ),
        args[i].len() == 2 && args[i][0] == '-' && args[i][1] != '-' && args[i][1] != 'h'
            && args[i][1] != 's' && args[i][1] != 'f' && !is_letter(args[i][1]) ==> scan_arg(
            c,
            args,
            i,
        ) == Err::<(ScanView, int), ExitView>(
            ExitView::Usage(Some("Option -"@ + seq![args[i][1]] + " not recognized"@)),
        ),
        i == args.len() - 1 && args[i] == "-f"@ ==> scan_arg(c, args, i) == Err::<
            (ScanView, int),
            ExitView,
        >(ExitView::Usage(Some("No argument specified for "@ + "-f"@))),
        i == args.len() - 1 && args[i] == "-s"@ ==> scan_arg(c, args, i) == Err::<
            (ScanView, int),
            ExitView,
        >(ExitView::Usage(Some("No argument specified for "@ + "-s"@))),
{
    reveal_strlit("-f");
    reveal_strlit("-s");
    let s = args[i];
    if has_prefix(s, "--"@) && s != "--"@ && !s.contains('=') {
        lemma_long_name(s, Seq::empty());
    }
    if s.len() == 2 && s[0] == '-' && s[1] != '-' {
        lemma_short_group(c, args, i);
        assert(s.skip(1) =~= seq![s[1]]);
        reveal_with_fuel(scan_short, 2);
    }
}

/// What keeps the subcommands from starting, each with its message.
pub proof fn lemma_what_is_missing(c: ScanView)
    ensures
        c.mode == Some(CliMode::SerialSplit) && (c.legacy_args.len() > 0 || c.local is Some
            || c.remote is Some || c.remote_host is Some) ==> c.finish(true) == Err::<
            ArgsView,
            ExitView,
        >(
            ExitView::Usage(
                Some("serial-split uses --device, --console-port, and --gdb-port"@),
            ),
        ),
        c.mode == Some(CliMode::SerialSplit) && c.legacy_args.len() == 0 && c.local is None
            && c.remote is None && c.remote_host is None && c.device is None ==> c.finish(false)
            == Err::<ArgsView, ExitView>(
            ExitView::TryHelp(
                "serial-split requires explicit --device because default device "@
                    + "/dev/ttyUSB0"@ + " does not exist"@,
            ),
        ),
        c.mode == Some(CliMode::Proxy) && c.legacy_args.len() > 0 ==> c.finish(true) == Err::<
            ArgsView,
            ExitView,
        >(
            ExitView::TryHelp(
                "proxy mode uses --local and --remote, not positional endpoints"@,
            ),
        ),
        c.mode == Some(CliMode::Proxy) && c.legacy_args.len() == 0 && c.local is None ==> c.finish(
            true,
        ) == Err::<ArgsView, ExitView>(ExitView::TryHelp("proxy mode requires --local"@)),
        c.mode == Some(CliMode::Proxy) && c.legacy_args.len() == 0 && c.local is Some && c.remote
            is None ==> c.finish(true) == Err::<ArgsView, ExitView>(
            ExitView::TryHelp("proxy mode requires --remote"@),
        ),
{
}

/// A host and a port both have to be there: one that is empty is an error that shows what was
/// written.
pub proof fn lemma_host_and_port_are_needed(host: Seq<char>, port: Seq<char>)
    requires
        !host.contains(':'),
        host.len() == 0 || port.len() == 0,
        host.len() == 0 || host[0] != '/',
    ensures
        remote_endpoint("tcp:"@ + (host + seq![':'] + port), None) == Err::<
            (Seq<char>, Seq<char>),
            ExitView,
        >(
            ExitView::Usage(
                Some(
                    "TCP remote endpoint"@ + " must include non-empty host and port: "@ + (host
                        + seq![':'] + port),
                ),
            ),
        ),
{
    reveal_strlit("tcp:");
    reveal_strlit("tcp://");
    let rest = host + seq![':'] + port;
    lemma_split_joined(host, ':', port);
    lemma_behind("tcp:"@, rest);
    let t = "tcp:"@ + rest;
    if has_prefix(t, "tcp://"@) {
        assert(t.take(6)[4] == '/');
        assert(t[4] == rest[0]);
    }
}

} // verus!
