use fm_player::commands::InternalCommand;
use fm_player::file_ctrl::{check_file_contents, Error};
use fm_player::key_command::KeyCommand;
use fm_player::midi::{MidiError, MidiInfo};
use fm_player::port::{IoKind, PortError};
use fm_player::sequence_msg::{cvt_string, ParamChangeFlag, SequenceEventFlag, SequenceMsg};
use fm_player::serial_com::{
    accept_reply, completion_reply, decode_frame, end_message, file_size_header, frame_start,
    long_length, Frame, FrameStart,
};
use fm_player::structs::{LogItem, PlayingLog, TrackInfo, MAX_LOG_SIZE};
use fm_player::text::{decimal_string, parse_usize, push_hex};
use fm_player::utils::{
    check_midi_format, get_common_filename_prefix, get_title, get_udp_addrinfo, u32_from,
    u32_from_le, validation_midi_file, DirItem, UpdateResult, ValidationConf,
};
use fm_player::view::{
    channel_head, channel_kind, is_natural_note, keyboard_colors, suggest_lines, KeyColor, Rhythm,
};

#[test]
fn words_from_bytes() {
    assert_eq!(u32_from(&[0x00, 0x00, 0x01, 0xe0]), 480);
    assert_eq!(u32_from(&[0x12, 0x34, 0x56, 0x78, 0x9a]), 0x1234_5678);
    assert_eq!(u32_from_le(&[0x78, 0x56, 0x34, 0x12]), 0x1234_5678);
    assert_eq!(u32_from_le(&[0x3c, 0, 0, 0]), 60);
}

#[test]
fn midi_format_magic() {
    assert!(check_midi_format(&[0x4d, 0x54, 0x68, 0x64, 0, 0]));
    assert!(!check_midi_format(&[0x4d, 0x54, 0x68, 0x65]));
    assert!(!check_midi_format(&[0x4d, 0x54]));
}

fn song(format: u8, channel: u8) -> Vec<u8> {
    let mut d = vec![0x4d, 0x54, 0x68, 0x64, 0, 0, 0, 6, 0, format, 0, 1, 0x01, 0xe0];
    d.extend([0x4d, 0x54, 0x72, 0x6b, 0, 0, 0, 8, 0x00, 0x90 | channel, 0x3c, 0x40, 0x00, 0xff, 0x2f, 0x00]);
    d
}

#[test]
fn validation_accepts_and_refuses() {
    let six = ValidationConf { ym2608: false };
    let ten = ValidationConf { ym2608: true };
    assert!(validation_midi_file(&song(0, 5), &six).is_ok());
    match validation_midi_file(&song(2, 0), &six) {
        Err(MidiError::Custom(m)) => {
            assert_eq!(m, "Unsupported MIDI format detected (must be Format 0 or 1).")
        }
        _ => panic!("format 2 accepted"),
    }
    match validation_midi_file(&song(0, 7), &six) {
        Err(MidiError::Custom(m)) => assert_eq!(m, "Unsupported MIDI channel detected (must be 1-6)."),
        _ => panic!("channel 8 accepted"),
    }
    assert!(validation_midi_file(&song(0, 7), &ten).is_ok());
    match validation_midi_file(&song(0, 11), &ten) {
        Err(MidiError::Custom(m)) => {
            assert_eq!(m, "Unsupported MIDI channel detected (must be 1-10).")
        }
        _ => panic!("channel 12 accepted"),
    }
    match validation_midi_file(&song(0, 6), &six) {
        Err(MidiError::Custom(m)) => assert_eq!(m, "Unsupported MIDI channel detected (must be 1-6)."),
        _ => panic!("channel 7 accepted without the YM2608"),
    }
    assert!(validation_midi_file(&song(0, 9), &ten).is_ok());
    match validation_midi_file(&song(0, 10), &ten) {
        Err(MidiError::Custom(m)) => {
            assert_eq!(m, "Unsupported MIDI channel detected (must be 1-10).")
        }
        _ => panic!("channel 11 accepted"),
    }
    let mut broken = song(0, 0);
    broken[0] = 0;
    assert!(matches!(validation_midi_file(&broken, &six), Err(MidiError::InvalidFileFormat(0))));
}

#[test]
fn file_contents_checked() {
    let conf = ValidationConf::default();
    assert!(check_file_contents(&song(1, 0), &conf).is_ok());
    match check_file_contents(&song(2, 0), &conf) {
        Err(e) => assert_eq!(e.to_msg(), "Unsupported MIDI format detected (must be Format 0 or 1)."),
        Ok(_) => panic!("format 2 accepted"),
    }
}

#[test]
fn error_messages() {
    assert_eq!(Error::FileOpen("a.mid".to_string()).to_msg(), "Failed to open file a.mid.");
    assert_eq!(
        Error::Format("a.mid".to_string()).to_msg(),
        "File format Error: a.mid is not MIDI Format 0."
    );
    assert_eq!(Error::FileNotExist("b".to_string()).to_msg(), "File Not Exist: b");
    assert_eq!(
        Error::MidiError(MidiError::InvalidFileFormat(1)).to_msg(),
        "Invalid File Format: Track is broken"
    );
    assert_eq!(MidiError::InvalidFileFormat(0).to_text(), "Invalid File Format: Header is broken");
    assert_eq!(MidiError::InvalidFileFormat(5).to_text(), "Invalid File Format: unknown is broken");
    assert_eq!(MidiError::InvalidHeader.to_text(), "Invalid Header");
    assert_eq!(MidiError::UnknownFormat.to_text(), "Unknown Format");
    assert_eq!(MidiError::LengthError.to_text(), "Length Error");
    assert_eq!(MidiError::UnknownEventFormat(0xf4).to_text(), "Unknown Event Format: 0xf4");
    assert_eq!(MidiError::UnknownEvent(0x0).to_text(), "Unknown Event: 0x0");
    assert_eq!(MidiError::Custom("x").to_text(), "x");
}

#[test]
fn title_is_not_read() {
    let info = MidiInfo::try_from(song(0, 0).as_slice()).unwrap();
    assert!(get_title(&info).is_none());
}

#[test]
fn common_prefix_of_names() {
    let items = vec![
        DirItem::new("./teamdev_fm_player_ui".to_string()),
        DirItem::new("./teamdev_fm_sequencer".to_string()),
    ];
    assert_eq!(get_common_filename_prefix(&items), Some("teamdev_fm_".to_string()));
    let disjoint = vec![DirItem::new("a/x".to_string()), DirItem::new("a/y".to_string())];
    assert_eq!(get_common_filename_prefix(&disjoint), None);
    assert_eq!(get_common_filename_prefix(&[]), None);
    let nameless = vec![DirItem::new("a/xy".to_string()), DirItem::new("/".to_string())];
    assert_eq!(get_common_filename_prefix(&nameless), None);
    let one = vec![DirItem::new("dir/song.mid".to_string())];
    assert_eq!(get_common_filename_prefix(&one), Some("song.mid".to_string()));
}

#[test]
fn dir_items() {
    let d = DirItem::new("music/a.mid".to_string());
    assert_eq!(d.path(), "music/a.mid");
    assert_eq!(d.as_str(), Some("music/a.mid"));
    assert_eq!(d.get_file_name(), Some("a.mid".to_string()));
    assert_eq!(DirItem::new("..".to_string()).get_file_name(), None);
    let u = UpdateResult::updated(3);
    assert!(u.is_update());
    assert_eq!(*u.get_content(), 3);
    assert!(!UpdateResult::not_updated(4).is_update());
}

#[test]
fn udp_addresses() {
    let info = get_udp_addrinfo(
        (Some("192.168.0.2".to_string()), Some("5000".to_string())),
        (None, None),
    )
    .unwrap();
    assert_eq!(info.tx_addr, "192.168.0.2:5000");
    assert_eq!(info.rx_addr, "0.0.0.0:5001");
    let info2 = get_udp_addrinfo(
        (Some("10.0.0.1".to_string()), Some("7".to_string())),
        (Some("10.0.0.9".to_string()), Some("9000".to_string())),
    )
    .unwrap();
    assert_eq!(info2.rx_addr, "10.0.0.9:9000");
    let named = get_udp_addrinfo(
        (Some("10.0.0.1".to_string()), Some("udp".to_string())),
        (Some("10.0.0.2".to_string()), Some("9000".to_string())),
    )
    .unwrap();
    assert_eq!(named.tx_addr, "10.0.0.1:udp");
    assert_eq!(named.rx_addr, "10.0.0.2:9000");
    assert!(get_udp_addrinfo((Some("10.0.0.1".to_string()), None), (None, None)).is_none());
    assert!(get_udp_addrinfo((None, Some("1".to_string())), (None, None)).is_none());
}

#[test]
fn numbers_as_text() {
    assert_eq!(decimal_string(0), "0");
    assert_eq!(decimal_string(4096), "4096");
    let mut s = String::from("0x");
    push_hex(&mut s, 0x2f);
    assert_eq!(s, "0x2f");
    assert_eq!(parse_usize("5000"), Some(5000));
    assert_eq!(parse_usize("+12"), Some(12));
    assert_eq!(parse_usize("12a"), None);
    assert_eq!(parse_usize(""), None);
}

#[test]
fn bytes_as_text() {
    assert_eq!(cvt_string(&[0x61, 0xe3, 0x81, 0x82]), "aあ");
    assert_eq!(cvt_string(&[0xff]), "unknown");
    assert_eq!(cvt_string(&[0x50, 0x69]), "Pi");
    assert_eq!(cvt_string(&[0xc3]), "unknown");
}

#[test]
fn track_rows() {
    let mut t = TrackInfo::new();
    assert_eq!(t.get_inst(), "");
    assert_eq!(t.get_key_state(), "Key Off    ");
    assert_eq!(t.get_expression(), 127);
    assert_eq!(t.get_pan_pot(), 64);
    assert_eq!(t.get_pan_pot_str(), "C");
    t.set_key_state(Some(60));
    assert_eq!(t.get_key_state(), "Key On  60 ");
    t.set_pan_pot(0);
    assert_eq!(t.get_pan_pot_str(), "L");
    t.set_pan_pot(127);
    assert_eq!(t.get_pan_pot_str(), "R");
    t.set_pitch_bend(-8192);
    assert_eq!(t.get_pitch_bend(), -8192);
    t.set_inst("Piano".to_string());
    t.set_expression(3);
    assert_eq!(t.get_inst(), "Piano");
    t.clear();
    assert_eq!(t.get_inst(), "");
    assert_eq!(t.get_pitch_bend(), 0);
    assert_eq!(t.get_expression(), 127);
    assert_eq!(t.get_key_state(), "Key Off    ");
}

#[test]
fn log_keeps_the_latest() {
    let mut log = PlayingLog::new();
    for i in 0..(MAX_LOG_SIZE + 3) {
        log.add(format!("m{i}"));
    }
    let logs = log.get_logs();
    assert_eq!(logs.len(), MAX_LOG_SIZE);
    assert_eq!(logs[0].get_msg(), format!("m{}", MAX_LOG_SIZE + 2));
    assert_eq!(logs[0].get_id(), (MAX_LOG_SIZE + 2) as u64);
    for j in 0..MAX_LOG_SIZE {
        let k = MAX_LOG_SIZE + 3;
        assert_eq!(logs[j].get_id(), (k - 1 - j) as u64);
        assert_eq!(logs[j].get_msg(), format!("m{}", k - 1 - j));
    }
    let mut short = PlayingLog::new();
    short.add("a".to_string());
    short.add("b".to_string());
    let got: Vec<(u64, String)> =
        short.get_logs().iter().map(|i| (i.get_id(), i.get_msg().to_string())).collect();
    assert_eq!(got, vec![(1, "b".to_string()), (0, "a".to_string())]);
    let item = LogItem::new(9, "x".to_string());
    assert_eq!(item.get_id(), 9);
}

#[test]
fn sequencer_messages() {
    let key_on = SequenceMsg::from(&[0x20, 60, 100]);
    assert_eq!(key_on.channel, 2);
    assert_eq!(key_on.sq_event, SequenceEventFlag::KeyEvent);
    assert_eq!(key_on.to_text(), "Ch 2: Key On      60");
    let key_off = SequenceMsg::from(&[0x20, 60, 0]);
    assert_eq!(key_off.to_text(), "Ch 2: Key Off     60");
    let param = SequenceMsg::from(&[0x34, 0x02, 9]);
    assert_eq!(param.sq_event, SequenceEventFlag::Param);
    assert_eq!(param.param_change, Some(ParamChangeFlag::Tl));
    assert_eq!(param.data, Some(vec![9]));
    for b in 0..=255u8 {
        let f = SequenceEventFlag::from(b);
        if f != SequenceEventFlag::Other {
            assert_eq!(SequenceEventFlag::from(f.into_u8()), f);
        }
        let p = ParamChangeFlag::from(b);
        if p != ParamChangeFlag::Other {
            assert_eq!(ParamChangeFlag::from(p.into_u8()), p);
        }
    }
}

#[test]
fn serial_protocol() {
    assert_eq!(file_size_header(0x012345), [0x2f, 0x45, 0x23, 0x01]);
    assert!(accept_reply(0x1e).is_ok());
    assert_eq!(accept_reply(0x0d), Err("Communication partner is not accepting.".to_string()));
    assert!(completion_reply(0x0d).is_ok());
    assert_eq!(completion_reply(0x3c), Err("failed to send  midi file".to_string()));
    assert_eq!(frame_start(0x01), FrameStart::End);
    assert_eq!(frame_start(0x27), FrameStart::LongLength);
    assert_eq!(frame_start(0x31), FrameStart::Payload(3));
    assert_eq!(long_length(0x34, 0x12), 0x1234);
    assert_eq!(end_message().sq_event, SequenceEventFlag::End);
    assert!(matches!(decode_frame(0x37, &[]), Frame::Printf));
    assert!(matches!(decode_frame(0x35, &[1, 2, 3]), Frame::Unhandled(5)));
    match decode_frame(0x31, &[0x16, 64]) {
        Frame::Message(m) => {
            assert_eq!(m.channel, 1);
            assert_eq!(m.sq_event, SequenceEventFlag::Expression);
            assert_eq!(m.to_text(), "Ch1: Expression     64");
        }
        _ => panic!("not a message"),
    }
}

#[test]
fn screen_pieces() {
    assert_eq!(channel_kind(0), "FM ");
    assert_eq!(channel_kind(4), "SSG");
    assert_eq!(channel_kind(9), "RHY");
    assert_eq!(channel_head(3, "Bass"), "  SSG  Ch 4 [Bass]");
    assert!(is_natural_note(0));
    assert!(!is_natural_note(1));
    assert!(is_natural_note(11));
    assert_eq!(Rhythm::cvt_name_by_name(2), "TOP");
    assert_eq!(Rhythm::try_from(36), Ok(Rhythm::BD));
    assert_eq!(Rhythm::try_from(37), Err("Invalid Rhythm Code"));
    assert_eq!(Rhythm::HH.index(), 3);
    let lines = suggest_lines(&["a".repeat(81), "b".to_string(), "c".to_string()]);
    assert_eq!(lines, vec!["a".repeat(81), "bc".to_string()]);
}

#[test]
fn keyboard_halves() {
    let mut st = fm_player::monitor::AppState::new(false, false, false);
    st.sequencer_event(4, fm_player::monitor::ChannelEvent::KeyEvent(24, 100));
    let (upper, lower) = keyboard_colors(&st.keyboard_state[..3]);
    assert_eq!(upper, vec![KeyColor::Channel(4), KeyColor::Black, KeyColor::White]);
    assert_eq!(lower, vec![KeyColor::Channel(4), KeyColor::Channel(4), KeyColor::White]);
    let (upper, _) = keyboard_colors(&st.keyboard_state);
    assert_eq!(upper.len(), 72);
    assert_eq!(upper[1], KeyColor::Black);
}

#[test]
fn commands_and_ports() {
    assert!(matches!(KeyCommand::from("o"), KeyCommand::DialogOpen));
    assert!(matches!(KeyCommand::from("q"), KeyCommand::Quit));
    assert!(matches!(KeyCommand::from("qq"), KeyCommand::Other(s) if s == "qq"));
    assert!(matches!(KeyCommand::from(""), KeyCommand::Other(s) if s.is_empty()));
    assert_eq!(InternalCommand::Open.to_text(), "Port Open");
    assert_eq!(InternalCommand::SendExec.to_text(), "Send Exec");
    assert!(InternalCommand::Close.closes_port());
    assert!(!InternalCommand::Send.closes_port());
    assert_eq!(
        IoKind::Udp("a:1".to_string(), "b:2".to_string()).open_error(),
        PortError::FailedToUDPPortOpen
    );
    assert_eq!(IoKind::Serial("COM1".to_string(), 9600).open_error(), PortError::FailedToSerialPortOpen);
}

#[test]
fn rhythm_notes_and_positions() {
    for (note, r) in [(36u8, Rhythm::BD), (38, Rhythm::SD), (46, Rhythm::Top), (42, Rhythm::HH), (47, Rhythm::Tom), (40, Rhythm::Rym)] {
        assert_eq!(Rhythm::try_from(note), Ok(r));
        assert_eq!(Rhythm::cvt_name_by_name(r.index()), r.name());
    }
}

#[test]
fn a_ym2203_song_plays_on_the_ym2608() {
    let d = song(1, 5);
    let small = validation_midi_file(&d, &ValidationConf { ym2608: false }).unwrap();
    let large = validation_midi_file(&d, &ValidationConf { ym2608: true }).unwrap();
    assert_eq!(small.get_tracks()[0].len(), large.get_tracks()[0].len());
    assert_eq!(small.get_tracks()[0][0].ch(), large.get_tracks()[0][0].ch());
}
