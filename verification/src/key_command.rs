//! Commands typed at the monitor.
use vstd::prelude::*;

use crate::text::chars_of;

verus! {

/// A command of the terminal monitor.
#[derive(Debug)]
pub enum KeyCommand {
    /// "o" then Enter: open the file dialog.
    DialogOpen,
    /// Esc: back to the monitor.
    GoMonitor,
    /// "q" then Enter: quit.
    Quit,
    /// Tab: complete the file name.
    InterPolation,
    /// Anything else then Enter.
    Other(String),
    /// No command.
    NoCommand,
}

/// The command that the line `s` stands for, once Enter is pressed.
pub open spec fn command_of(s: Seq<char>) -> KeyCommandView {
    if s == "o"@ {
        KeyCommandView::DialogOpen
    } else if s == "q"@ {
        KeyCommandView::Quit
    } else {
        KeyCommandView::Other(s)
    }
}

/// The mathematical value of a `KeyCommand`.
pub enum KeyCommandView {
    DialogOpen,
    GoMonitor,
    Quit,
    InterPolation,
    Other(Seq<char>),
    NoCommand,
}

impl View for KeyCommand {
    type V = KeyCommandView;

    open spec fn view(&self) -> KeyCommandView {
        match self {
            KeyCommand::DialogOpen => KeyCommandView::DialogOpen,
            KeyCommand::GoMonitor => KeyCommandView::GoMonitor,
            KeyCommand::Quit => KeyCommandView::Quit,
            KeyCommand::InterPolation => KeyCommandView::InterPolation,
            KeyCommand::Other(s) => KeyCommandView::Other(s@),
            KeyCommand::NoCommand => KeyCommandView::NoCommand,
        }
    }
}

impl KeyCommand {
    /// The command that the typed line `value` stands for.
    pub fn from(value: &str) -> (r: KeyCommand)
        ensures
            r@ == command_of(value@),
    {
        proof {
            reveal_strlit("o");
            reveal_strlit("q");
        }
        let cs = chars_of(value);
        if cs.len() == 1 {
            if cs[0] == 'o' {
                assert(value@ =~= "o"@);
                return KeyCommand::DialogOpen;
            } else if cs[0] == 'q' {
                assert(value@ =~= "q"@);
                return KeyCommand::Quit;
            }
        }
        assert(value@ != "o"@ && value@ != "q"@) by {
            if value@ == "o"@ {
                assert(value@[0] == 'o');
            }
            if value@ == "q"@ {
                assert(value@[0] == 'q');
            }
        }
        KeyCommand::Other(String::from_str(value))
    }

    /// A copy of this command.
    pub fn duplicate(&self) -> (r: KeyCommand)
        ensures
            r@ == self@,
    {
        match self {
            KeyCommand::DialogOpen => KeyCommand::DialogOpen,
            KeyCommand::GoMonitor => KeyCommand::GoMonitor,
            KeyCommand::Quit => KeyCommand::Quit,
            KeyCommand::InterPolation => KeyCommand::InterPolation,
            KeyCommand::Other(s) => KeyCommand::Other(String::from_str(s.as_str())),
            KeyCommand::NoCommand => KeyCommand::NoCommand,
        }
    }
}

} // verus!
