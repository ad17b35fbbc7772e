//! What the operations of the proxy are for: laws over their inputs and their results.
pub mod commands;
pub mod connections;
pub mod devices;
pub mod display;
pub mod ending;
pub mod endpoints;
pub mod line;
pub mod planning;
pub mod receiving;
pub mod serial;
pub mod telnet;
pub mod turns;
pub mod writing;
