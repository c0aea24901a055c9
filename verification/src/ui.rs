//! The two screens of the terminal monitor, the line typed in the file
//! dialog, and how keys and commands move between them.
use vstd::prelude::*;

use crate::file_ctrl::{Error, error_text};
use crate::key_command::{KeyCommand, KeyCommandView, command_of};
use crate::midi::MidiInfo;
use crate::monitor::EventInfo;
use crate::text::{byte_len, string_insert, string_remove, text_bytes};
use crate::suggest::entries_view;
use crate::utils::{DirItem, UpdateResult, get_title};

verus! {

broadcast use vstd::utf8::group_utf8_lib;

/// Which screen is shown.
#[derive(Debug, Clone, Copy, PartialEq, Eq, Structural)]
pub enum UiState {
    Monitor,
    FileDialog,
}

impl Default for UiState {
    fn default() -> (r: UiState)
        ensures
            r == UiState::Monitor,
    {
        UiState::Monitor
    }
}

/// A key as the monitor tells keys apart.
#[derive(Debug, Clone, Copy, PartialEq, Eq, Structural)]
pub enum KeyInput {
    /// Ctrl+C.
    Interrupt,
    Enter,
    Esc,
    Tab,
    Char(char),
    Backspace,
    Delete,
    Left,
    Right,
    /// Any other key, and a key that is released or held.
    Ignored,
}

/// What the terminal is to do after a key.
#[derive(Debug, Clone, Copy, PartialEq, Eq, Structural)]
pub enum KeyAction {
    Continue,
    Quit,
    /// Move the terminal's cursor one column left.
    CursorLeft,
    /// Move the terminal's cursor one column right.
    CursorRight,
}

/// The state of the screens.
#[derive(Debug)]
pub struct UiModel {
    pub state: UiState,
    /// The message shown in the file dialog.
    pub dialog_msg: Option<String>,
    /// The line typed so far.
    pub input_chars: String,
    /// The command that the last key fired, not yet carried out.
    pub fired_command: Option<KeyCommand>,
    /// Whether the dialog's message must be drawn again.
    pub is_error_msg_update: bool,
    /// The cursor in the typed line, in bytes.
    pub cursor_pos: usize,
    /// The command carried out last.
    pub before_key_command: KeyCommand,
    /// The entries suggested for the typed path.
    pub dir_entries: Option<Vec<DirItem>>,
}

/// The value of a `UiModel`.
pub struct UiView {
    pub state: UiState,
    pub dialog_msg: Option<Seq<char>>,
    pub input: Seq<char>,
    pub fired: Option<KeyCommandView>,
    pub error_update: bool,
    pub cursor: usize,
    pub before: KeyCommandView,
    pub entries: Option<Seq<Seq<char>>>,
}

/// The text of an optional string.
pub open spec fn opt_text(o: Option<String>) -> Option<Seq<char>> {
    match o {
        Some(s) => Some(s@),
        None => None,
    }
}

/// The value of an optional command.
pub open spec fn opt_command(o: Option<KeyCommand>) -> Option<KeyCommandView> {
    match o {
        Some(c) => Some(c@),
        None => None,
    }
}

impl View for UiModel {
    type V = UiView;

    open spec fn view(&self) -> UiView {
        UiView {
            state: self.state,
            dialog_msg: opt_text(self.dialog_msg),
            input: self.input_chars@,
            fired: opt_command(self.fired_command),
            error_update: self.is_error_msg_update,
            cursor: self.cursor_pos,
            before: self.before_key_command@,
            entries: entries_view(self.dir_entries),
        }
    }
}

/// `s` with `c` put in at byte position `i`.
pub open spec fn insert_at(s: Seq<char>, i: int, c: char) -> Seq<char> {
    vstd::utf8::decode_utf8(text_bytes(s).take(i) + text_bytes(seq![c]) + text_bytes(s).skip(i))
}

/// `s` without the character that starts at byte position `i`.
pub open spec fn remove_at(s: Seq<char>, i: int) -> Seq<char> {
    vstd::utf8::decode_utf8(
        text_bytes(s).take(i) + vstd::utf8::pop_first_scalar(text_bytes(s).skip(i)),
    )
}

/// Whether `i` is a byte position between two characters of `s`.
pub open spec fn on_boundary(s: Seq<char>, i: int) -> bool {
    vstd::utf8::is_char_boundary(text_bytes(s), i)
}

/// The keys that edit the line where the typed text cannot take the edit
/// (the cursor inside a character's bytes); on them the line editing of
/// `String` panics.
pub open spec fn key_ok(m: UiView, k: KeyInput) -> bool {
    match k {
        KeyInput::Char(_) => on_boundary(m.input, m.cursor as int) && m.cursor < usize::MAX,
        KeyInput::Backspace => m.cursor > 0 ==> on_boundary(m.input, m.cursor - 1) && m.cursor
            - 1 < text_bytes(m.input).len(),
        KeyInput::Delete => m.cursor < text_bytes(m.input).len() ==> on_boundary(
            m.input,
            m.cursor as int,
        ),
        _ => true,
    }
}

/// The screens after a key, and what the terminal is to do.
pub open spec fn key_step(m: UiView, k: KeyInput) -> (UiView, KeyAction) {
    let len = text_bytes(m.input).len();
    match k {
        KeyInput::Interrupt => (m, KeyAction::Quit),
        KeyInput::Enter => (
            UiView { fired: Some(command_of(m.input)), input: seq![], cursor: 0, ..m },
            KeyAction::Continue,
        ),
        KeyInput::Esc => (UiView { fired: Some(KeyCommandView::GoMonitor), ..m }, KeyAction::Continue),
        KeyInput::Tab => (
            UiView { fired: Some(KeyCommandView::InterPolation), ..m },
            KeyAction::Continue,
        ),
        KeyInput::Char(c) => (
            UiView {
                input: insert_at(m.input, m.cursor as int, c),
                cursor: (m.cursor + 1) as usize,
                ..m
            },
            KeyAction::Continue,
        ),
        KeyInput::Backspace => if m.cursor > 0 {
            (
                UiView {
                    input: remove_at(m.input, m.cursor - 1),
                    cursor: (m.cursor - 1) as usize,
                    ..m
                },
                KeyAction::Continue,
            )
        } else {
            (m, KeyAction::Continue)
        },
        KeyInput::Delete => if m.cursor < len {
            (UiView { input: remove_at(m.input, m.cursor as int), ..m }, KeyAction::Continue)
        } else {
            (m, KeyAction::Continue)
        },
        KeyInput::Left => if m.cursor > 0 {
            (UiView { cursor: (m.cursor - 1) as usize, ..m }, KeyAction::CursorLeft)
        } else {
            (m, KeyAction::Continue)
        },
        KeyInput::Right => if m.cursor < len {
            (UiView { cursor: (m.cursor + 1) as usize, ..m }, KeyAction::CursorRight)
        } else {
            (m, KeyAction::Continue)
        },
        KeyInput::Ignored => (m, KeyAction::Continue),
    }
}

/// Typing a character and then Backspace leaves the screens as they were:
/// the typed line and the cursor come back.
pub proof fn lemma_type_then_backspace(m: UiView, c: char)
    requires
        key_ok(m, KeyInput::Char(c)),
    ensures
        key_ok(key_step(m, KeyInput::Char(c)).0, KeyInput::Backspace),
        key_step(key_step(m, KeyInput::Char(c)).0, KeyInput::Backspace).0 == m,
{
    let b = text_bytes(m.input);
    let i = m.cursor as int;
    let e = text_bytes(seq![c]);
    let x = b.take(i) + e + b.skip(i);
    let m1 = key_step(m, KeyInput::Char(c)).0;
    assert(0 <= i <= b.len()) by {
        reveal_with_fuel(vstd::utf8::is_char_boundary, 2);
    }
    assert(b.take(i) =~= b.subrange(0, i));
    assert(b.skip(i) =~= b.subrange(i, b.len() as int));
    vstd::utf8::encode_utf8_first_scalar(seq![c]);
    assert(vstd::utf8::valid_utf8(x)) by {
        vstd::utf8::valid_utf8_split(b, i);
        vstd::utf8::valid_utf8_concat(b.take(i), e);
        vstd::utf8::valid_utf8_concat(b.take(i) + e, b.skip(i));
    }
    assert(text_bytes(m1.input) == x);
    let r = x.skip(i);
    assert(r =~= e + b.skip(i));
    assert(r[0] == e[0]);
    assert(e.len() >= 1);
    assert(x[i] == e[0]);
    assert(on_boundary(m1.input, i)) by {
        vstd::utf8::is_char_boundary_iff_is_leading_byte(x, i);
    }
    assert(seq![c].drop_first() =~= Seq::<char>::empty());
    assert(e =~= vstd::utf8::encode_scalar(c as u32)) by {
        reveal_with_fuel(vstd::utf8::encode_utf8, 2);
    }
    assert(vstd::utf8::length_of_first_scalar(e) == e.len());
    assert(vstd::utf8::length_of_first_scalar(r) == vstd::utf8::length_of_first_scalar(e));
    assert(vstd::utf8::pop_first_scalar(r) =~= b.skip(i));
    assert(x.take(i) =~= b.take(i));
    assert(x.take(i) + vstd::utf8::pop_first_scalar(r) =~= b);
}

/// Moving the cursor left and then right puts it back where it was.
pub proof fn lemma_left_then_right(m: UiView)
    requires
        0 < m.cursor <= text_bytes(m.input).len(),
    ensures
        key_step(m, KeyInput::Left).1 == KeyAction::CursorLeft,
        key_step(key_step(m, KeyInput::Left).0, KeyInput::Right).1 == KeyAction::CursorRight,
        key_step(key_step(m, KeyInput::Left).0, KeyInput::Right).0 == m,
{
}

impl UiModel {
    /// The screens at start: `state` shown, with the dialog message
    /// `dialog_msg`, nothing typed.
    pub fn new(state: UiState, dialog_msg: Option<String>) -> (r: UiModel)
        ensures
            r@ == (UiView {
                state,
                dialog_msg: opt_text(dialog_msg),
                input: seq![],
                fired: None,
                error_update: true,
                cursor: 0,
                before: KeyCommandView::Other(seq![]),
                entries: None,
            }),
    {
        UiModel {
            state,
            dialog_msg,
            input_chars: String::new(),
            fired_command: None,
            is_error_msg_update: true,
            cursor_pos: 0,
            before_key_command: KeyCommand::Other(String::new()),
            dir_entries: None,
        }
    }
}

/// Takes a key: edits the typed line, moves the cursor, or fires a command.
pub fn handle_keyboard_event(key: KeyInput, m: &mut UiModel) -> (r: KeyAction)
    requires
        key_ok(old(m)@, key),
    ensures
        (final(m)@, r) == key_step(old(m)@, key),
{
    let len = byte_len(&m.input_chars);
    match key {
        KeyInput::Interrupt => KeyAction::Quit,
        KeyInput::Enter => {
            m.fired_command = Some(KeyCommand::from(m.input_chars.as_str()));
            m.input_chars = String::new();
            m.cursor_pos = 0;
            KeyAction::Continue
        },
        KeyInput::Esc => {
            m.fired_command = Some(KeyCommand::GoMonitor);
            KeyAction::Continue
        },
        KeyInput::Tab => {
            m.fired_command = Some(KeyCommand::InterPolation);
            KeyAction::Continue
        },
        KeyInput::Char(c) => {
            let ghost before = m.input_chars@;
            string_insert(&mut m.input_chars, m.cursor_pos, c);
            assert(m.input_chars@ == vstd::utf8::decode_utf8(text_bytes(m.input_chars@)));
            m.cursor_pos = m.cursor_pos + 1;
            KeyAction::Continue
        },
        KeyInput::Backspace => {
            if m.cursor_pos > 0 {
                m.cursor_pos = m.cursor_pos - 1;
                let _ = string_remove(&mut m.input_chars, m.cursor_pos);
                assert(m.input_chars@ == vstd::utf8::decode_utf8(text_bytes(m.input_chars@)));
            }
            KeyAction::Continue
        },
        KeyInput::Delete => {
            if m.cursor_pos < len {
                let _ = string_remove(&mut m.input_chars, m.cursor_pos);
                assert(m.input_chars@ == vstd::utf8::decode_utf8(text_bytes(m.input_chars@)));
            }
            KeyAction::Continue
        },
        KeyInput::Left => {
            if m.cursor_pos > 0 {
                m.cursor_pos = m.cursor_pos - 1;
                KeyAction::CursorLeft
            } else {
                KeyAction::Continue
            }
        },
        KeyInput::Right => {
            if m.cursor_pos < len {
                m.cursor_pos = m.cursor_pos + 1;
                KeyAction::CursorRight
            } else {
                KeyAction::Continue
            }
        },
        KeyInput::Ignored => KeyAction::Continue,
    }
}


/// The outside work that the fired command asks for.
#[derive(Debug)]
pub enum CommandRequest {
    /// None: the command is carried out at once.
    Nothing,
    /// Quit the monitor.
    Quit,
    /// Complete the typed path: what the file system suggests for it.
    Suggest(String),
    /// Send the file at this path to the sequencer.
    SendFile(String),
}

/// The value of a `CommandRequest`.
pub enum RequestView {
    Nothing,
    Quit,
    Suggest(Seq<char>),
    SendFile(Seq<char>),
}

impl View for CommandRequest {
    type V = RequestView;

    open spec fn view(&self) -> RequestView {
        match self {
            CommandRequest::Nothing => RequestView::Nothing,
            CommandRequest::Quit => RequestView::Quit,
            CommandRequest::Suggest(s) => RequestView::Suggest(s@),
            CommandRequest::SendFile(s) => RequestView::SendFile(s@),
        }
    }
}

/// What the outside work for a command gave back.
#[derive(Debug)]
pub enum CommandReply {
    /// No work was asked for.
    Nothing,
    /// The completed path, and the entries to show where several fit.
    Suggestion(UpdateResult<String>, Option<Vec<DirItem>>),
    /// The screen to show after sending, and the title of the song sent or
    /// the message why it was not sent.
    Sent(UiState, Result<String, String>),
}

/// The value of a `CommandReply`.
pub enum ReplyView {
    Nothing,
    Suggestion(Seq<char>, bool, Option<Seq<Seq<char>>>),
    Sent(UiState, Result<Seq<char>, Seq<char>>),
}

/// The text of a result of strings.
pub open spec fn result_text(r: Result<String, String>) -> Result<Seq<char>, Seq<char>> {
    match r {
        Ok(s) => Ok(s@),
        Err(s) => Err(s@),
    }
}

impl View for CommandReply {
    type V = ReplyView;

    open spec fn view(&self) -> ReplyView {
        match self {
            CommandReply::Nothing => ReplyView::Nothing,
            CommandReply::Suggestion(u, e) => ReplyView::Suggestion(
                u.content@,
                u.changed,
                entries_view(*e),
            ),
            CommandReply::Sent(st, r) => ReplyView::Sent(*st, result_text(*r)),
        }
    }
}

/// The outside work that the fired command of `m` asks for: completion for
/// Tab, sending for a line entered in the file dialog.
pub open spec fn request_of(m: UiView) -> RequestView {
    match m.fired {
        Some(KeyCommandView::Quit) => RequestView::Quit,
        Some(KeyCommandView::InterPolation) => RequestView::Suggest(m.input),
        Some(KeyCommandView::Other(p)) => if m.state == UiState::FileDialog {
            RequestView::SendFile(p)
        } else {
            RequestView::Nothing
        },
        _ => RequestView::Nothing,
    }
}

/// Whether a reply is of the kind that the request asked for.
pub open spec fn reply_fits(q: RequestView, a: ReplyView) -> bool {
    match q {
        RequestView::Suggest(_) => a is Suggestion,
        RequestView::SendFile(_) => a is Sent,
        _ => a is Nothing,
    }
}

/// The screens once a command is done: it becomes the command done last,
/// and none is pending.
pub open spec fn finish(m: UiView) -> UiView {
    UiView {
        before: match m.fired {
            Some(c) => c,
            None => KeyCommandView::NoCommand,
        },
        fired: None,
        ..m
    }
}

/// The screens, the song title and the screen update after the fired
/// command is carried out with the reply `a` of its outside work, and
/// whether the monitor quits.
pub open spec fn command_step(m: UiView, title: Seq<char>, ev: EventInfo, a: ReplyView) -> (
    UiView,
    Seq<char>,
    EventInfo,
    bool,
) {
    match m.fired {
        Some(KeyCommandView::GoMonitor) => (
            finish(UiView { state: UiState::Monitor, ..m }),
            title,
            EventInfo::UpdateAll,
            false,
        ),
        Some(KeyCommandView::InterPolation) => match a {
            ReplyView::Suggestion(text, _, entries) => {
                let m1 = UiView { input: text, cursor: text_bytes(text).len() as usize, ..m };
                let m2 = if m.before == KeyCommandView::InterPolation {
                    UiView {
                        fired: if entries is None {
                            Some(KeyCommandView::NoCommand)
                        } else {
                            m.fired
                        },
                        entries,
                        ..m1
                    }
                } else {
                    m1
                };
                (finish(m2), title, ev, false)
            },
            _ => (finish(m), title, ev, false),
        },
        Some(KeyCommandView::DialogOpen) => (
            finish(UiView { state: UiState::FileDialog, error_update: true, ..m }),
            title,
            ev,
            false,
        ),
        Some(KeyCommandView::Quit) => (m, title, ev, true),
        Some(KeyCommandView::Other(_)) => if m.state == UiState::FileDialog {
            match a {
                ReplyView::Sent(st, Ok(t)) => (
                    finish(UiView { state: UiState::Monitor, dialog_msg: None, ..m }),
                    t,
                    EventInfo::UpdateAll,
                    false,
                ),
                ReplyView::Sent(st, Err(msg)) => (
                    finish(UiView { state: st, dialog_msg: Some(msg), error_update: true, ..m }),
                    title,
                    ev,
                    false,
                ),
                _ => (finish(m), title, ev, false),
            }
        } else {
            (finish(UiView { input: seq![], ..m }), title, ev, false)
        },
        _ => (finish(m), title, ev, false),
    }
}

/// The outside work that the fired command asks for.
pub fn command_request(m: &UiModel) -> (r: CommandRequest)
    ensures
        r@ == request_of(m@),
{
    match &m.fired_command {
        Some(KeyCommand::Quit) => CommandRequest::Quit,
        Some(KeyCommand::InterPolation) => CommandRequest::Suggest(
            String::from_str(m.input_chars.as_str()),
        ),
        Some(KeyCommand::Other(p)) => {
            if m.state == UiState::FileDialog {
                CommandRequest::SendFile(String::from_str(p.as_str()))
            } else {
                CommandRequest::Nothing
            }
        },
        _ => CommandRequest::Nothing,
    }
}

/// Carries out the fired command, given what its outside work gave back;
/// `title` is the song title shown and `msg_event` the screen update due.
/// Returns whether the monitor quits.
pub fn handle_command(
    m: &mut UiModel,
    title: &mut String,
    msg_event: &mut EventInfo,
    reply: CommandReply,
) -> (quit: bool)
    requires
        reply_fits(request_of(old(m)@), reply@),
    ensures
        (final(m)@, final(title)@, *final(msg_event), quit) == command_step(
            old(m)@,
            old(title)@,
            *old(msg_event),
            reply@,
        ),
{
    let fired = match &m.fired_command {
        Some(c) => Some(c.duplicate()),
        None => None,
    };
    match fired {
        Some(KeyCommand::GoMonitor) => {
            m.state = UiState::Monitor;
            *msg_event = EventInfo::UpdateAll;
        },
        Some(KeyCommand::InterPolation) => {
            match reply {
                CommandReply::Suggestion(interpolated, ent_list) => {
                    m.input_chars = interpolated.content;
                    m.cursor_pos = byte_len(&m.input_chars);
                    if matches!(m.before_key_command, KeyCommand::InterPolation) {
                        if ent_list.is_none() {
                            m.fired_command = Some(KeyCommand::NoCommand);
                        }
                        m.dir_entries = ent_list;
                    }
                },
                _ => {},
            }
        },
        Some(KeyCommand::DialogOpen) => {
            m.state = UiState::FileDialog;
            m.is_error_msg_update = true;
        },
        Some(KeyCommand::Quit) => {
            return true;
        },
        Some(KeyCommand::Other(_)) => {
            if m.state == UiState::FileDialog {
                match reply {
                    CommandReply::Sent(new_state, outcome) => {
                        m.state = new_state;
                        match outcome {
                            Ok(t) => {
                                *title = t;
                                *msg_event = EventInfo::UpdateAll;
                                m.dialog_msg = None;
                                m.state = UiState::Monitor;
                            },
                            Err(msg) => {
                                m.dialog_msg = Some(msg);
                                m.is_error_msg_update = true;
                            },
                        }
                    },
                    _ => {},
                }
            } else {
                m.input_chars = String::new();
            }
        },
        _ => {},
    }
    m.before_key_command = match &m.fired_command {
        Some(c) => c.duplicate(),
        None => KeyCommand::NoCommand,
    };
    m.fired_command = None;
    false
}

/// What happened to a file chosen to be sent.
#[derive(Debug)]
pub enum SendReport {
    /// No path was given.
    NoPath,
    /// The file could not be opened or is not a song that can be sent.
    Refused(Error),
    /// Sending failed, with the reason.
    SendFailed(String),
    /// The song was sent.
    Sent(MidiInfo),
}

/// The screen to show after trying to send the file at `path`, and the
/// title of the song (the path) or the message why it was not sent.
pub open spec fn send_result(path: Seq<char>, report: SendReport) -> (
    UiState,
    Result<Seq<char>, Seq<char>>,
) {
    match report {
        SendReport::NoPath => (UiState::FileDialog, Err(seq![])),
        SendReport::Refused(e) => (UiState::FileDialog, Err(error_text(&e))),
        SendReport::SendFailed(e) => (UiState::FileDialog, Err(e@)),
        SendReport::Sent(_) => (UiState::Monitor, Ok(path)),
    }
}

/// The screen to show after trying to send the file at `path`, and the
/// title of the song or the message why it was not sent.
pub fn try_send_outcome(path: &str, report: SendReport) -> (r: (UiState, Result<String, String>))
    ensures
        (r.0, result_text(r.1)) == send_result(path@, report),
{
    match report {
        SendReport::NoPath => (UiState::FileDialog, Err(String::new())),
        SendReport::Refused(e) => (UiState::FileDialog, Err(e.to_msg())),
        SendReport::SendFailed(e) => (UiState::FileDialog, Err(e)),
        SendReport::Sent(info) => {
            let title = match get_title(&info) {
                Some(t) => t,
                None => String::from_str(path),
            };
            (UiState::Monitor, Ok(title))
        },
    }
}

} // verus!
