//! Verified core of a tool that hands USB devices from one machine to
//! another over USB/IP: the host rotation, the packet framing on the wire,
//! the key-chord detector, the command lines handed to `usbip`, and the
//! choice of role from the command line and the configuration.

pub mod cli;
pub mod cycler;
pub mod frame;
pub mod hosts;
pub mod keys;
pub mod packet;
pub mod text;
pub mod usbip;
