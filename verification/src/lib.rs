//! A proxy for kernel debugging that shares one serial line between a console and a
//! kgdb session.

pub mod accept;
pub mod amount;
pub mod bytes;
pub mod cli;
pub mod device;
pub mod endpoint;
pub mod errno;
pub mod fdset;
pub mod kill;
pub mod laws;
pub mod number;
pub mod plan;
pub mod port;
pub mod ready;
pub mod receive;
pub mod remote;
pub mod round;
pub mod rs232;
pub mod serial;
pub mod setup;
pub mod splitter;
pub mod state;
pub mod status;
pub mod table;
pub mod telnet;
pub mod text;
pub mod turn;
pub mod write;
