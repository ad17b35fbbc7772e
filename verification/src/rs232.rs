//! How a serial line is set up: its rate, its stop bits, and raw console mode.
use nix::sys::termios::BaudRate;
use vstd::prelude::*;
use crate::number::{decimal, decimal_of};
use crate::text::str_eq;

verus! {

/// The line rates that `nix` knows.
#[verifier::external_type_specification]
pub struct ExBaudRate(nix::sys::termios::BaudRate);

/// The rates that can be set, in bits per second.
pub open spec fn known_rates() -> Set<u32> {
    set![
        50, 75, 110, 134, 150, 200, 300, 600, 1200, 1800, 2400, 4800, 9600, 19200, 38400, 57600,
        115200, 230400, 460800, 500000, 576000, 921600, 1000000, 1152000, 1500000, 2000000,
        2500000, 3000000, 3500000, 4000000,
    ]
}

/// The bits per second of a rate; 0 where it is none of those that can be set.
pub open spec fn bits_per_second(code: BaudRate) -> u32 {
    match code {
        BaudRate::B50 => 50,
        BaudRate::B75 => 75,
        BaudRate::B110 => 110,
        BaudRate::B134 => 134,
        BaudRate::B150 => 150,
        BaudRate::B200 => 200,
        BaudRate::B300 => 300,
        BaudRate::B600 => 600,
        BaudRate::B1200 => 1200,
        BaudRate::B1800 => 1800,
        BaudRate::B2400 => 2400,
        BaudRate::B4800 => 4800,
        BaudRate::B9600 => 9600,
        BaudRate::B19200 => 19200,
        BaudRate::B38400 => 38400,
        BaudRate::B57600 => 57600,
        BaudRate::B115200 => 115200,
        BaudRate::B230400 => 230400,
        BaudRate::B460800 => 460800,
        BaudRate::B500000 => 500000,
        BaudRate::B576000 => 576000,
        BaudRate::B921600 => 921600,
        BaudRate::B1000000 => 1000000,
        BaudRate::B1152000 => 1152000,
        BaudRate::B1500000 => 1500000,
        BaudRate::B2000000 => 2000000,
        BaudRate::B2500000 => 2500000,
        BaudRate::B3000000 => 3000000,
        BaudRate::B3500000 => 3500000,
        BaudRate::B4000000 => 4000000,
        _ => 0,
    }
}

/// The code of a numeric rate. The code that is found stands for exactly that rate, and one
/// is found for every rate that can be set.
pub fn rate_to_code(rate: u32) -> (r: Option<BaudRate>)
    ensures
        match r {
            Some(code) => rate != 0 && bits_per_second(code) == rate,
            None => !known_rates().contains(rate),
        },
        r is Some <==> known_rates().contains(rate),
{
    match rate {
        50 => Some(BaudRate::B50),
        75 => Some(BaudRate::B75),
        110 => Some(BaudRate::B110),
        134 => Some(BaudRate::B134),
        150 => Some(BaudRate::B150),
        200 => Some(BaudRate::B200),
        300 => Some(BaudRate::B300),
        600 => Some(BaudRate::B600),
        1200 => Some(BaudRate::B1200),
        1800 => Some(BaudRate::B1800),
        2400 => Some(BaudRate::B2400),
        4800 => Some(BaudRate::B4800),
        9600 => Some(BaudRate::B9600),
        19200 => Some(BaudRate::B19200),
        38400 => Some(BaudRate::B38400),
        57600 => Some(BaudRate::B57600),
        115200 => Some(BaudRate::B115200),
        230400 => Some(BaudRate::B230400),
        460800 => Some(BaudRate::B460800),
        500000 => Some(BaudRate::B500000),
        576000 => Some(BaudRate::B576000),
        921600 => Some(BaudRate::B921600),
        1000000 => Some(BaudRate::B1000000),
        1152000 => Some(BaudRate::B1152000),
        1500000 => Some(BaudRate::B1500000),
        2000000 => Some(BaudRate::B2000000),
        2500000 => Some(BaudRate::B2500000),
        3000000 => Some(BaudRate::B3000000),
        3500000 => Some(BaudRate::B3500000),
        4000000 => Some(BaudRate::B4000000),
        _ => None,
    }
}

/// The code to set for the rate `baud`, or the message where it cannot be set.
pub fn setbaudrate(baud: u32) -> (r: Result<BaudRate, String>)
    ensures
        match r {
            Ok(code) => known_rates().contains(baud) && bits_per_second(code) == baud,
            Err(e) => !known_rates().contains(baud) && e@ == "Invalid baud rate: "@ + decimal(
                baud as nat,
            ),
        },
{
    match rate_to_code(baud) {
        Some(code) => Ok(code),
        None => {
            let mut e = "Invalid baud rate: ".to_owned();
            e.append(decimal_of(baud as u64).as_str());
            Err(e)
        },
    }
}

/// The bits of the control flags that the line setup touches, as the platform has them.
#[derive(Debug, Clone, Copy, PartialEq, Eq, Structural)]
pub struct ControlBits {
    /// Two stop bits.
    pub cstopb: u32,
    /// The mask of the character size.
    pub csize: u32,
    /// Parity.
    pub parenb: u32,
    /// Ignore modem control lines.
    pub clocal: u32,
    /// Eight bits per character.
    pub cs8: u32,
}

/// The settings of a serial line that the setup touches.
#[derive(Debug, Clone, Copy, PartialEq, Eq, Structural)]
pub struct LineSettings {
    pub input_flags: u32,
    pub output_flags: u32,
    pub local_flags: u32,
    pub control_flags: u32,
    /// The fewest bytes that a read waits for.
    pub vmin: u8,
    /// How long a read waits.
    pub vtime: u8,
}

/// The control flags with the stop bits that `stopbits` asks for: "2" and "1.5" ask for two,
/// anything else for one.
pub fn setstopbits(control_flags: u32, bits: &ControlBits, stopbits: &str) -> (r: u32)
    ensures
        r == if stopbits@ == "2"@ || stopbits@ == "1.5"@ {
            control_flags | bits.cstopb
        } else {
            control_flags & !bits.cstopb
        },
{
    if str_eq(stopbits, "2") || str_eq(stopbits, "1.5") {
        control_flags | bits.cstopb
    } else {
        control_flags & !bits.cstopb
    }
}

/// The settings of a line with the console defaults.
pub open spec fn console_defaults(settings: LineSettings, bits: ControlBits) -> LineSettings {
    LineSettings {
        input_flags: 0,
        output_flags: 0,
        local_flags: 0,
        control_flags: (settings.control_flags & !(bits.csize | bits.parenb | bits.cstopb)) | (
        bits.clocal | bits.cs8),
        vmin: 0,
        vtime: 0,
    }
}

/// The console defaults: raw input and output, no echo, eight bits without parity and with
/// one stop bit, modem control lines ignored, and reads that do not wait. Other control flags
/// stay.
pub fn setcondefaults(settings: &LineSettings, bits: &ControlBits) -> (r: LineSettings)
    ensures
        r == console_defaults(*settings, *bits),
{
    LineSettings {
        input_flags: 0,
        output_flags: 0,
        local_flags: 0,
        control_flags: (settings.control_flags & !(bits.csize | bits.parenb | bits.cstopb)) | (
        bits.clocal | bits.cs8),
        vmin: 0,
        vtime: 0,
    }
}

/// The stop bits that a serial device is opened with.
pub const STOP_BITS: &'static str = "1";

/// One setting of a serial device that is opened.
#[derive(Clone, Copy)]
pub enum LineStep {
    /// Set the rate.
    Rate(BaudRate),
    /// Set the stop bits.
    StopBits,
    /// Set the console defaults.
    ConsoleDefaults,
}

/// What is set on a serial device that is opened, in order, or the message where the rate
/// `baud` cannot be set. Without a rate the device keeps its own.
pub fn line_steps(baud: Option<u32>) -> (r: Result<Vec<LineStep>, String>)
    ensures
        match (baud, r) {
            (None, Ok(steps)) => steps@ == seq![LineStep::StopBits, LineStep::ConsoleDefaults],
            (Some(baud), Ok(steps)) => {
                &&& known_rates().contains(baud)
                &&& steps@.len() == 3
                &&& steps@[0] matches LineStep::Rate(code) && bits_per_second(code) == baud
                &&& steps@[1] == LineStep::StopBits
                &&& steps@[2] == LineStep::ConsoleDefaults
            },
            (Some(baud), Err(e)) => !known_rates().contains(baud) && e@ == "Invalid baud rate: "@
                + decimal(baud as nat),
            (None, Err(_)) => false,
        },
{
    let mut steps: Vec<LineStep> = Vec::new();
    if let Some(baud) = baud {
        match setbaudrate(baud) {
            Ok(code) => {
                steps.push(LineStep::Rate(code));
            },
            Err(e) => {
                return Err(e);
            },
        }
    }
    steps.push(LineStep::StopBits);
    steps.push(LineStep::ConsoleDefaults);
    Ok(steps)
}

/// The settings of a line after `step`. The rate is not one of them.
pub open spec fn line_after(
    step: LineStep,
    settings: LineSettings,
    bits: ControlBits,
) -> LineSettings {
    match step {
        LineStep::Rate(_) => settings,
        LineStep::StopBits => LineSettings {
            control_flags: settings.control_flags & !bits.cstopb,
            ..settings
        },
        LineStep::ConsoleDefaults => console_defaults(settings, bits),
    }
}

impl LineStep {
    /// The settings of a line after this step.
    pub fn applied(&self, settings: &LineSettings, bits: &ControlBits) -> (r: LineSettings)
        ensures
            r == line_after(*self, *settings, *bits),
    {
        match self {
            LineStep::Rate(_) => *settings,
            LineStep::StopBits => {
                proof {
                    reveal_strlit("1");
                    reveal_strlit("2");
                    reveal_strlit("1.5");
                    assert("1"@[0] != "2"@[0]);
                    assert("1"@.len() != "1.5"@.len());
                }
                let control_flags = setstopbits(settings.control_flags, bits, STOP_BITS);
                LineSettings { control_flags, ..*settings }
            },
            LineStep::ConsoleDefaults => setcondefaults(settings, bits),
        }
    }
}

/// Different rates have different codes: a code stands for one rate.
pub proof fn lemma_rates_are_distinct(a: BaudRate, b: BaudRate)
    requires
        bits_per_second(a) == bits_per_second(b),
        bits_per_second(a) != 0,
    ensures
        a == b,
{
}

/// The console defaults leave the line with eight bits, no parity, one stop bit and no modem
/// control, whatever it had before, and leave the other control flags alone.
pub proof fn lemma_console_line(settings: LineSettings, bits: ControlBits)
    requires
        bits.csize & bits.parenb == 0,
        bits.cstopb & (bits.csize | bits.parenb) == 0,
        bits.clocal & (bits.csize | bits.parenb | bits.cstopb) == 0,
        bits.cs8 & !bits.csize == 0,
    ensures
        ({
            let control = settings.control_flags;
            let after = console_defaults(settings, bits).control_flags;
            let touched = bits.csize | bits.parenb | bits.cstopb | bits.clocal;
            &&& after & bits.csize == bits.cs8
            &&& after & bits.parenb == 0
            &&& after & bits.cstopb == 0
            &&& after & bits.clocal == bits.clocal
            &&& after & !touched == control & !touched
        }),
{
    let control = settings.control_flags;
    let after = console_defaults(settings, bits).control_flags;
    let (csize, parenb, cstopb) = (bits.csize, bits.parenb, bits.cstopb);
    let (clocal, cs8) = (bits.clocal, bits.cs8);
    assert(after & csize == cs8 && after & parenb == 0 && after & cstopb == 0 && after & clocal
        == clocal && after & !(csize | parenb | cstopb | clocal) == control & !(csize | parenb
        | cstopb | clocal)) by (bit_vector)
        requires
            after == (control & !(csize | parenb | cstopb)) | (clocal | cs8),
            csize & parenb == 0,
            cstopb & (csize | parenb) == 0,
            clocal & (csize | parenb | cstopb) == 0,
            cs8 & !csize == 0,
    ;
}

} // verus!
