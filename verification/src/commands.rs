//! Commands passed from the front end to the task that owns the port.
use vstd::prelude::*;

use crate::text::push_str;

verus! {

/// A command for the task that owns the port.
#[derive(Debug, PartialEq, Eq, Clone, Copy, Structural)]
pub enum InternalCommand {
    Open,
    Close,
    Send,
    SendExec,
}

/// How a command is shown.
pub open spec fn command_text(c: InternalCommand) -> Seq<char> {
    match c {
        InternalCommand::Open => "Port Open"@,
        InternalCommand::Close => "Port Close"@,
        InternalCommand::Send => "Send File"@,
        InternalCommand::SendExec => "Send Exec"@,
    }
}

/// Whether the task closes the port after the command.
pub open spec fn closes_port(c: InternalCommand) -> bool {
    c == InternalCommand::Close
}

impl InternalCommand {
    /// How the command is shown.
    pub fn to_text(&self) -> (r: String)
        ensures
            r@ == command_text(*self),
    {
        let mut s = String::new();
        match self {
            InternalCommand::Open => push_str(&mut s, "Port Open"),
            InternalCommand::Close => push_str(&mut s, "Port Close"),
            InternalCommand::Send => push_str(&mut s, "Send File"),
            InternalCommand::SendExec => push_str(&mut s, "Send Exec"),
        }
        s
    }

    /// Whether the task that owns the port closes it after this command.
    pub fn closes_port(&self) -> (r: bool)
        ensures
            r == closes_port(*self),
    {
        matches!(self, InternalCommand::Close)
    }
}

} // verus!
