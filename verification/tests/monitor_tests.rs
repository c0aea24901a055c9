use fm_player::monitor::{report_of, tempo_event, AppState, ChannelEvent, EventInfo, Report};
use fm_player::sequence_msg::SequenceMsg;
use fm_player::view::Rhythm;

#[test]
fn state_at_start() {
    let st = AppState::new(false, true, false);
    assert_eq!(st.max_channel, 6);
    assert_eq!(st.track_info.len(), 6);
    assert_eq!(st.keyboard_state.len(), 72);
    assert_eq!(st.tempo, 60);
    assert!(st.midi_config.ignore_text);
    assert!(!st.midi_config.sysex_ignore);
    let st = AppState::new(true, false, false);
    assert_eq!(st.max_channel, 10);
    assert_eq!(st.track_info.len(), 10);
    assert!(st.validation_conf.ym2608);
}

#[test]
fn key_press_and_release() {
    let mut st = AppState::new(false, false, false);
    let (e, r) = st.sequencer_event(2, ChannelEvent::KeyEvent(60, 100));
    assert_eq!(e, EventInfo::ChInfo(2, true));
    assert!(r.is_none());
    assert_eq!(st.key_channels(36), vec![2]);
    assert_eq!(st.track_info[2].get_key_state(), "Key On  60 ");
    let (e, _) = st.sequencer_event(2, ChannelEvent::KeyEvent(60, 0));
    assert_eq!(e, EventInfo::ChInfo(2, true));
    assert!(st.key_channels(36).is_empty());
    assert_eq!(st.track_info[2].get_key_state(), "Key Off    ");
    let (e, _) = st.sequencer_event(2, ChannelEvent::KeyEvent(10, 100));
    assert_eq!(e, EventInfo::ChInfo(2, false));
}

#[test]
fn channels_beyond_are_ignored() {
    let mut st = AppState::new(false, false, false);
    let (e, r) = st.sequencer_event(6, ChannelEvent::KeyEvent(60, 100));
    assert_eq!(e, EventInfo::NoChange);
    assert!(r.is_none());
    assert!(st.key_channels(36).is_empty());
}

#[test]
fn rhythm_lights() {
    let mut st = AppState::new(true, false, false);
    let (e, r) = st.sequencer_event(9, ChannelEvent::KeyEvent(36, 100));
    assert_eq!(e, EventInfo::ChInfo(9, true));
    assert_eq!(r, Some(Rhythm::BD));
    assert_eq!(st.percussion_state, [1, 0, 0, 0, 0, 0]);
    let (e, r) = st.sequencer_event(9, ChannelEvent::KeyEvent(37, 100));
    assert_eq!(e, EventInfo::ChInfo(9, false));
    assert!(r.is_none());
    st.rhythm_note_off(0);
    assert_eq!(st.percussion_state, [0; 6]);
    st.rhythm_note_off(0);
    assert_eq!(st.percussion_state, [0; 6]);
}

#[test]
fn channel_values() {
    let mut st = AppState::new(false, false, false);
    st.sequencer_event(1, ChannelEvent::PitchBend(0, 0x20));
    assert_eq!(st.track_info[1].get_pitch_bend(), 0);
    st.sequencer_event(1, ChannelEvent::PitchBend(0x7f, 0x7f));
    assert_eq!(st.track_info[1].get_pitch_bend(), 0x7f7f - 8192);
    st.sequencer_event(1, ChannelEvent::Expression(90));
    assert_eq!(st.track_info[1].get_expression(), 90);
    st.sequencer_event(1, ChannelEvent::PanPot(10));
    assert_eq!(st.track_info[1].get_pan_pot_str(), "L");
    let (e, _) = st.sequencer_event(1, ChannelEvent::ProgramChange("Brass".to_string()));
    assert_eq!(e, EventInfo::ChInfo(1, false));
    assert_eq!(st.track_info[1].get_inst(), "Brass");
    st.sequencer_event(3, ChannelEvent::ResetAllControllers);
    assert_eq!(st.track_info[1].get_inst(), "");
    assert_eq!(st.track_info[1].get_expression(), 127);
    assert_eq!(st.track_info[1].get_pitch_bend(), 0);
}

#[test]
fn tempo_reports() {
    let e = tempo_event(&[0x78, 0, 0, 0]);
    assert_eq!(e, EventInfo::Tempo(120));
    let mut st = AppState::new(false, false, false);
    st.note_event(e);
    assert_eq!(st.tempo, 120);
    st.note_event(EventInfo::UpdateAll);
    assert_eq!(st.tempo, 120);
}

#[test]
fn press_then_release_keeps_other_channels() {
    let mut st = AppState::new(false, false, false);
    st.sequencer_event(0, ChannelEvent::KeyEvent(64, 90));
    st.sequencer_event(1, ChannelEvent::KeyEvent(64, 90));
    st.sequencer_event(3, ChannelEvent::KeyEvent(64, 90));
    st.sequencer_event(3, ChannelEvent::KeyEvent(64, 0));
    assert_eq!(st.key_channels(40), vec![0, 1]);
}

#[test]
fn full_key_sets_are_reported() {
    let mut st = AppState::new(true, false, false);
    for ch in 0..8u8 {
        assert!(st.can_apply(ch, &ChannelEvent::KeyEvent(60, 1)));
        st.sequencer_event(ch, ChannelEvent::KeyEvent(60, 1));
    }
    assert_eq!(st.key_channels(36), vec![0, 1, 2, 3, 4, 5, 6, 7]);
    assert!(!st.can_apply(8, &ChannelEvent::KeyEvent(60, 1)));
    assert!(st.can_apply(8, &ChannelEvent::KeyEvent(60, 0)));
    assert!(st.can_apply(7, &ChannelEvent::KeyEvent(60, 1)));
    assert!(st.can_apply(9, &ChannelEvent::KeyEvent(36, 1)));
}

#[test]
fn a_release_clears_the_channel_even_after_two_presses() {
    let mut st = AppState::new(false, false, false);
    st.sequencer_event(2, ChannelEvent::KeyEvent(60, 100));
    st.sequencer_event(2, ChannelEvent::KeyEvent(60, 90));
    assert_eq!(st.key_channels(36), vec![2]);
    st.sequencer_event(2, ChannelEvent::KeyEvent(60, 0));
    assert!(st.key_channels(36).is_empty());
}

#[test]
fn messages_become_reports() {
    let key = SequenceMsg::from(&[0x30, 64, 0]);
    assert!(matches!(report_of(&key), Report::Channel(3, ChannelEvent::KeyEvent(64, 0))));
    let expr = SequenceMsg::from(&[0x16, 90]);
    assert!(matches!(report_of(&expr), Report::Channel(1, ChannelEvent::Expression(90))));
    let pc = SequenceMsg::from(&[0x25, 0x50, 0x69]);
    assert!(matches!(report_of(&pc), Report::Channel(2, ChannelEvent::ProgramChange(n)) if n == "Pi"));
    let tempo = SequenceMsg::from(&[0x01, 0x78, 0, 0, 0]);
    assert!(matches!(report_of(&tempo), Report::Tempo(d) if d == vec![0x78, 0, 0, 0]));
    let end = SequenceMsg::from(&[0x02]);
    assert!(matches!(report_of(&end), Report::Nothing));
    let nop = SequenceMsg::from(&[0x43]);
    assert!(matches!(report_of(&nop), Report::Channel(4, ChannelEvent::Other)));
}
