//! Why a control session ends abnormally.

use vstd::prelude::*;

verus! {

/// The failures that end a control session.
#[derive(Debug)]
pub enum SessionError {
    /// The first word of a command line is not a known command.
    InvalidCommand,
    /// The port of a `STREAM` command is missing or is no 16-bit number.
    InvalidPort,
    /// The requested identity is already registered.
    PortInUse,
    /// No keep-alive arrived for the owned identity within the timeout.
    PingTimeout(u16),
    /// Reading from or writing to the peer failed; the text says how.
    Transport(String),
}

} // verus!
