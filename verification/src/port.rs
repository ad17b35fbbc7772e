//! One endpoint of the proxy: a listening socket, a connection, a serial device, or stdin.
use vstd::prelude::*;

verus! {

/// The most bytes that one read of a port returns.
pub const IO_BUFSIZE: usize = 8192;

/// The Telnet "interpret as command" byte.
pub const IAC: u8 = 255;

/// Port mode: what the port receives also goes to the script clients.
pub const SCRIPT_READ: u32 = 0x4;

/// Port mode: what script clients send is written to the port.
pub const SCRIPT_WRITE: u32 = 0x2;

/// Port mode: the port carries raw bytes without Telnet option negotiation.
pub const NO_TELNET_OPTION_NEGOTIATION: u32 = 0x10;

/// The mode of a remote that takes part in scripting both ways:
/// `SCRIPT_READ` and `SCRIPT_WRITE`.
pub const SCRIPT_READ_WRITE: u32 = 0x6;

/// Unique identifier of a port in the port table.
pub type PortId = usize;

/// A file descriptor; negative where there is none.
pub type RawFd = i32;

/// The value of a descriptor field that holds none.
pub const NO_FD: RawFd = -1;

/// Port transport type.
#[derive(Debug, Clone, Copy, PartialEq, Eq, Structural)]
pub enum PortType {
    Tcp,
    Udp,
    Rs232,
    StdinOut,
    Listen,
    FifoCon,
}

/// Port classification.
#[derive(Debug, Clone, Copy, PartialEq, Eq, Structural)]
pub enum PortClass {
    Local,
    Remote,
    Script,
    ScriptClient,
    Connection,
}

/// An IPv4 address, its first octet the most significant, with a port number.
#[derive(Debug, Clone, Copy, PartialEq, Eq, Structural)]
pub struct SockAddr {
    pub ip: u32,
    pub port: u16,
}

/// A port of the proxy. Other ports are referred to by their identifiers. Points in time
/// are milliseconds of a clock that does not run backwards.
pub struct Port {
    pub port_type: PortType,
    pub cls: PortClass,
    pub sock: RawFd,
    pub is_local: bool,
    pub peer: Option<PortId>,
    pub remote: Option<PortId>,
    pub in_iac: u32,
    /// The script port that the port is attached to.
    pub script_ref: Option<PortId>,
    pub mode: u32,
    pub lmode: u32,
    pub rmode: u32,
    pub script_in_use: bool,
    pub lscript: Option<PortId>,
    pub rscript: Option<PortId>,
    pub clients: Vec<PortId>,
    pub break_port: bool,
    pub port_num: u16,
    pub name: String,
    pub serv_addr: Option<SockAddr>,
    pub rx_bytes: u64,
    pub tx_bytes: u64,
    /// Bytes that were accepted for the port and are not written yet.
    pub tx_buf: Vec<u8>,
    pub connecting: bool,
    pub serial_baud: Option<u32>,
    pub serial_config_path: Option<String>,
    pub serial_reconnect_at: Option<u64>,
    pub serial_check_at: Option<u64>,
}

/// The abstract value of a [`Port`].
pub struct PortView {
    pub port_type: PortType,
    pub cls: PortClass,
    pub sock: RawFd,
    pub is_local: bool,
    pub peer: Option<PortId>,
    pub remote: Option<PortId>,
    pub in_iac: u32,
    pub script_ref: Option<PortId>,
    pub mode: u32,
    pub lmode: u32,
    pub rmode: u32,
    pub script_in_use: bool,
    pub lscript: Option<PortId>,
    pub rscript: Option<PortId>,
    pub clients: Seq<PortId>,
    pub break_port: bool,
    pub port_num: u16,
    pub name: Seq<char>,
    pub serv_addr: Option<SockAddr>,
    pub rx_bytes: u64,
    pub tx_bytes: u64,
    pub tx_buf: Seq<u8>,
    pub connecting: bool,
    pub serial_baud: Option<u32>,
    pub serial_config_path: Option<Seq<char>>,
    pub serial_reconnect_at: Option<u64>,
    pub serial_check_at: Option<u64>,
}

impl View for Port {
    type V = PortView;

    open spec fn view(&self) -> PortView {
        PortView {
            port_type: self.port_type,
            cls: self.cls,
            sock: self.sock,
            is_local: self.is_local,
            peer: self.peer,
            remote: self.remote,
            in_iac: self.in_iac,
            script_ref: self.script_ref,
            mode: self.mode,
            lmode: self.lmode,
            rmode: self.rmode,
            script_in_use: self.script_in_use,
            lscript: self.lscript,
            rscript: self.rscript,
            clients: self.clients@,
            break_port: self.break_port,
            port_num: self.port_num,
            name: self.name@,
            serv_addr: self.serv_addr,
            rx_bytes: self.rx_bytes,
            tx_bytes: self.tx_bytes,
            tx_buf: self.tx_buf@,
            connecting: self.connecting,
            serial_baud: self.serial_baud,
            serial_config_path: match self.serial_config_path {
                Some(path) => Some(path@),
                None => None,
            },
            serial_reconnect_at: self.serial_reconnect_at,
            serial_check_at: self.serial_check_at,
        }
    }
}

impl PortView {
    /// A port that nothing has been configured on yet.
    pub open spec fn fresh(port_type: PortType, cls: PortClass) -> PortView {
        PortView {
            port_type,
            cls,
            sock: NO_FD,
            is_local: false,
            peer: None,
            remote: None,
            in_iac: 0,
            script_ref: None,
            mode: 0,
            lmode: 0,
            rmode: 0,
            script_in_use: false,
            lscript: None,
            rscript: None,
            clients: Seq::empty(),
            break_port: false,
            port_num: 0,
            name: Seq::empty(),
            serv_addr: None,
            rx_bytes: 0,
            tx_bytes: 0,
            tx_buf: Seq::empty(),
            connecting: false,
            serial_baud: None,
            serial_config_path: None,
            serial_reconnect_at: None,
            serial_check_at: None,
        }
    }

    /// The port is a serial device on the remote side.
    pub open spec fn is_serial_remote(self) -> bool {
        self.cls == PortClass::Remote && self.port_type == PortType::Rs232
    }

    /// The port is a remote that outlives the connections made to it.
    pub open spec fn is_persistent_remote(self) -> bool {
        self.cls == PortClass::Remote && (self.port_type == PortType::Udp || self.port_type
            == PortType::Listen || self.port_type == PortType::StdinOut || self.port_type
            == PortType::FifoCon || self.port_type == PortType::Rs232)
    }
}

impl Port {
    /// A port that nothing has been configured on yet.
    pub fn new(_id: PortId, port_type: PortType, cls: PortClass) -> (p: Port)
        ensures
            p@ == PortView::fresh(port_type, cls),
    {
        Port {
            port_type,
            cls,
            sock: NO_FD,
            is_local: false,
            peer: None,
            remote: None,
            in_iac: 0,
            script_ref: None,
            mode: 0,
            lmode: 0,
            rmode: 0,
            script_in_use: false,
            lscript: None,
            rscript: None,
            clients: Vec::new(),
            break_port: false,
            port_num: 0,
            name: String::new(),
            serv_addr: None,
            rx_bytes: 0,
            tx_bytes: 0,
            tx_buf: Vec::new(),
            connecting: false,
            serial_baud: None,
            serial_config_path: None,
            serial_reconnect_at: None,
            serial_check_at: None,
        }
    }

    /// Whether the port is a serial device on the remote side.
    pub fn is_serial_remote(&self) -> (r: bool)
        ensures
            r == self@.is_serial_remote(),
    {
        self.cls == PortClass::Remote && self.port_type == PortType::Rs232
    }

    /// Whether the port is a remote that outlives the connections made to it.
    pub fn is_persistent_remote(&self) -> (r: bool)
        ensures
            r == self@.is_persistent_remote(),
    {
        self.cls == PortClass::Remote && (self.port_type == PortType::Udp || self.port_type
            == PortType::Listen || self.port_type == PortType::StdinOut || self.port_type
            == PortType::FifoCon || self.port_type == PortType::Rs232)
    }
}

} // verus!
