use fm_player::file_ctrl::Error;
use fm_player::key_command::KeyCommand;
use fm_player::midi::MidiInfo;
use fm_player::monitor::EventInfo;
use fm_player::ui::{
    command_request, handle_command, handle_keyboard_event, try_send_outcome, CommandReply,
    CommandRequest, KeyAction, KeyInput, SendReport, UiModel, UiState,
};
use fm_player::utils::{DirItem, UpdateResult};

fn typed(m: &mut UiModel, s: &str) {
    for c in s.chars() {
        assert_eq!(handle_keyboard_event(KeyInput::Char(c), m), KeyAction::Continue);
    }
}

#[test]
fn line_editing() {
    let mut m = UiModel::new(UiState::FileDialog, None);
    typed(&mut m, "ab");
    assert_eq!(m.input_chars, "ab");
    assert_eq!(m.cursor_pos, 2);
    assert_eq!(handle_keyboard_event(KeyInput::Left, &mut m), KeyAction::CursorLeft);
    assert_eq!(m.cursor_pos, 1);
    typed(&mut m, "x");
    assert_eq!(m.input_chars, "axb");
    assert_eq!(handle_keyboard_event(KeyInput::Backspace, &mut m), KeyAction::Continue);
    assert_eq!(m.input_chars, "ab");
    assert_eq!(m.cursor_pos, 1);
    handle_keyboard_event(KeyInput::Delete, &mut m);
    assert_eq!(m.input_chars, "a");
    assert_eq!(handle_keyboard_event(KeyInput::Right, &mut m), KeyAction::Continue);
    assert_eq!(m.cursor_pos, 1);
    handle_keyboard_event(KeyInput::Delete, &mut m);
    assert_eq!(m.input_chars, "a");
    handle_keyboard_event(KeyInput::Left, &mut m);
    assert_eq!(handle_keyboard_event(KeyInput::Left, &mut m), KeyAction::Continue);
    handle_keyboard_event(KeyInput::Backspace, &mut m);
    assert_eq!(m.input_chars, "a");
    assert_eq!(handle_keyboard_event(KeyInput::Right, &mut m), KeyAction::CursorRight);
    assert_eq!(handle_keyboard_event(KeyInput::Ignored, &mut m), KeyAction::Continue);
    assert_eq!(handle_keyboard_event(KeyInput::Interrupt, &mut m), KeyAction::Quit);
}

#[test]
fn typing_then_backspace_restores() {
    let mut m = UiModel::new(UiState::FileDialog, None);
    typed(&mut m, "ab");
    handle_keyboard_event(KeyInput::Left, &mut m);
    typed(&mut m, "é");
    assert_eq!(m.input_chars, "aéb");
    assert_eq!(m.cursor_pos, 2);
    handle_keyboard_event(KeyInput::Backspace, &mut m);
    assert_eq!(m.input_chars, "ab");
    assert_eq!(m.cursor_pos, 1);
}

#[test]
fn enter_fires_the_line() {
    let mut m = UiModel::new(UiState::Monitor, None);
    typed(&mut m, "o");
    handle_keyboard_event(KeyInput::Enter, &mut m);
    assert_eq!(m.input_chars, "");
    assert_eq!(m.cursor_pos, 0);
    assert!(matches!(m.fired_command, Some(KeyCommand::DialogOpen)));
    assert!(matches!(command_request(&m), CommandRequest::Nothing));
    let mut title = String::from("t");
    let mut ev = EventInfo::NoChange;
    m.is_error_msg_update = false;
    assert!(!handle_command(&mut m, &mut title, &mut ev, CommandReply::Nothing));
    assert_eq!(m.state, UiState::FileDialog);
    assert!(m.is_error_msg_update);
    assert!(m.fired_command.is_none());
    assert!(matches!(m.before_key_command, KeyCommand::DialogOpen));
    assert_eq!(ev, EventInfo::NoChange);
}

#[test]
fn quit_and_escape() {
    let mut m = UiModel::new(UiState::FileDialog, None);
    handle_keyboard_event(KeyInput::Esc, &mut m);
    let mut title = String::new();
    let mut ev = EventInfo::NoChange;
    assert!(!handle_command(&mut m, &mut title, &mut ev, CommandReply::Nothing));
    assert_eq!(m.state, UiState::Monitor);
    assert_eq!(ev, EventInfo::UpdateAll);
    typed(&mut m, "q");
    handle_keyboard_event(KeyInput::Enter, &mut m);
    assert!(matches!(command_request(&m), CommandRequest::Quit));
    assert!(handle_command(&mut m, &mut title, &mut ev, CommandReply::Nothing));
}

#[test]
fn sending_a_file() {
    let mut m = UiModel::new(UiState::FileDialog, Some("old".to_string()));
    typed(&mut m, "song.mid");
    handle_keyboard_event(KeyInput::Enter, &mut m);
    assert!(matches!(command_request(&m), CommandRequest::SendFile(p) if p == "song.mid"));
    let mut title = String::new();
    let mut ev = EventInfo::NoChange;
    let reply = CommandReply::Sent(UiState::Monitor, Ok("song.mid".to_string()));
    assert!(!handle_command(&mut m, &mut title, &mut ev, reply));
    assert_eq!(title, "song.mid");
    assert_eq!(ev, EventInfo::UpdateAll);
    assert_eq!(m.state, UiState::Monitor);
    assert!(m.dialog_msg.is_none());

    let mut m = UiModel::new(UiState::FileDialog, None);
    typed(&mut m, "none.mid");
    handle_keyboard_event(KeyInput::Enter, &mut m);
    m.is_error_msg_update = false;
    let reply = CommandReply::Sent(UiState::FileDialog, Err("Failed".to_string()));
    handle_command(&mut m, &mut title, &mut ev, reply);
    assert_eq!(m.state, UiState::FileDialog);
    assert_eq!(m.dialog_msg.as_deref(), Some("Failed"));
    assert!(m.is_error_msg_update);
    assert_eq!(title, "song.mid");
}

#[test]
fn a_line_on_the_monitor_is_dropped() {
    let mut m = UiModel::new(UiState::Monitor, None);
    typed(&mut m, "xyz");
    handle_keyboard_event(KeyInput::Enter, &mut m);
    assert!(matches!(command_request(&m), CommandRequest::Nothing));
    let mut title = String::new();
    let mut ev = EventInfo::NoChange;
    handle_command(&mut m, &mut title, &mut ev, CommandReply::Nothing);
    assert!(matches!(&m.before_key_command, KeyCommand::Other(s) if s == "xyz"));
    assert_eq!(m.state, UiState::Monitor);
}

#[test]
fn tab_completes_and_lists_on_second_press() {
    let mut m = UiModel::new(UiState::FileDialog, None);
    typed(&mut m, "s");
    handle_keyboard_event(KeyInput::Tab, &mut m);
    assert!(matches!(command_request(&m), CommandRequest::Suggest(s) if s == "s"));
    let mut title = String::new();
    let mut ev = EventInfo::NoChange;
    let entries = vec![DirItem::new("./song1".to_string()), DirItem::new("./song2".to_string())];
    let reply = CommandReply::Suggestion(UpdateResult::updated("./song".to_string()), Some(entries));
    handle_command(&mut m, &mut title, &mut ev, reply);
    assert_eq!(m.input_chars, "./song");
    assert_eq!(m.cursor_pos, 6);
    assert!(m.dir_entries.is_none());
    assert!(matches!(m.before_key_command, KeyCommand::InterPolation));

    handle_keyboard_event(KeyInput::Tab, &mut m);
    let entries = vec![DirItem::new("./song1".to_string()), DirItem::new("./song2".to_string())];
    let reply = CommandReply::Suggestion(UpdateResult::not_updated("./song".to_string()), Some(entries));
    handle_command(&mut m, &mut title, &mut ev, reply);
    assert_eq!(m.dir_entries.as_ref().map(|v| v.len()), Some(2));
    assert!(matches!(m.before_key_command, KeyCommand::InterPolation));

    handle_keyboard_event(KeyInput::Tab, &mut m);
    let reply = CommandReply::Suggestion(UpdateResult::not_updated("./song".to_string()), None);
    handle_command(&mut m, &mut title, &mut ev, reply);
    assert!(m.dir_entries.is_none());
    assert!(matches!(m.before_key_command, KeyCommand::NoCommand));
}

#[test]
fn send_outcomes() {
    let (st, r) = try_send_outcome("a.mid", SendReport::NoPath);
    assert_eq!((st, r), (UiState::FileDialog, Err(String::new())));
    let (st, r) = try_send_outcome("a.mid", SendReport::Refused(Error::FileOpen("a.mid".to_string())));
    assert_eq!((st, r), (UiState::FileDialog, Err("Failed to open file a.mid.".to_string())));
    let (st, r) = try_send_outcome("a.mid", SendReport::SendFailed("busy".to_string()));
    assert_eq!((st, r), (UiState::FileDialog, Err("busy".to_string())));
    let mut d = vec![0x4d, 0x54, 0x68, 0x64, 0, 0, 0, 6, 0, 0, 0, 1, 0x01, 0xe0];
    d.extend([0x4d, 0x54, 0x72, 0x6b, 0, 0, 0, 4, 0x00, 0xff, 0x2f, 0x00]);
    let info = MidiInfo::try_from(d.as_slice()).unwrap();
    let (st, r) = try_send_outcome("a.mid", SendReport::Sent(info));
    assert_eq!((st, r), (UiState::Monitor, Ok("a.mid".to_string())));
}

#[test]
fn left_then_right_returns() {
    let mut m = UiModel::new(UiState::FileDialog, None);
    typed(&mut m, "xyz");
    assert_eq!(handle_keyboard_event(KeyInput::Left, &mut m), KeyAction::CursorLeft);
    assert_eq!(handle_keyboard_event(KeyInput::Right, &mut m), KeyAction::CursorRight);
    assert_eq!(m.cursor_pos, 3);
    assert_eq!(m.input_chars, "xyz");
}
