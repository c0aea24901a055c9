//! The ports the sequencer is reached by, and how a failure to open one is
//! reported.
use vstd::prelude::*;

verus! {

/// Why a port could not be opened.
#[derive(Debug, Clone, Copy, PartialEq, Eq, Structural)]
pub enum PortError {
    FailedToSerialPortOpen,
    FailedToUDPPortOpen,
}

/// A port to open.
#[derive(Debug, Clone, PartialEq, Eq)]
pub enum IoKind {
    /// A UDP link: the address to send to, and the address to listen on.
    Udp(String, String),
    /// A serial port: its name and its baud rate.
    Serial(String, u32),
}

/// The error reported when opening a port of this kind fails: binding or
/// connecting a UDP link, or opening a serial port.
pub open spec fn open_error_of(kind: IoKind) -> PortError {
    match kind {
        IoKind::Udp(..) => PortError::FailedToUDPPortOpen,
        IoKind::Serial(..) => PortError::FailedToSerialPortOpen,
    }
}

impl IoKind {
    /// The error reported when opening this port fails.
    pub fn open_error(&self) -> (r: PortError)
        ensures
            r == open_error_of(*self),
    {
        match self {
            IoKind::Udp(..) => PortError::FailedToUDPPortOpen,
            IoKind::Serial(..) => PortError::FailedToSerialPortOpen,
        }
    }
}

} // verus!
