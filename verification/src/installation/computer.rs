//! The computers that belong to an installation and receive its audio analysis over OSC.

use vstd::prelude::*;

verus! {

/// A unique identifier for a single computer within an installation.
#[derive(Copy, Clone, Debug, PartialEq, Eq, PartialOrd, Ord, Hash)]
pub struct Id(pub usize);

/// An IPv4 socket address: the four octets of the IP address and a port.
#[derive(Copy, Clone, Debug, PartialEq, Eq)]
pub struct SocketAddrV4 {
    pub ip: [u8; 4],
    pub port: u16,
}

/// The address of a single computer.
#[derive(Clone, Debug, PartialEq)]
pub struct Address {
    /// The IP address of the target installation computer.
    pub socket: SocketAddrV4,
    /// The OSC address string.
    pub osc_addr: String,
}

} // verus!
