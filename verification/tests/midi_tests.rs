use fm_player::midi::{
    convert_variable_value, get_variable_value, to_u16, Format, MidiConfig, MidiError, MidiEvent,
    MidiHeader, MidiInfo,
};

#[test]
fn test_variable_value() {
    assert_eq!(vec![1], convert_variable_value(1));
    assert_eq!(vec![0x7f], convert_variable_value(0x7f));
    assert_eq!(vec![0x81, 0x00], convert_variable_value(0x80));
}

#[test]
fn variable_value_larger_numbers() {
    assert_eq!(vec![0], convert_variable_value(0));
    assert_eq!(vec![0xff, 0x7f], convert_variable_value(0x3fff));
    assert_eq!(vec![0x81, 0x80, 0x00], convert_variable_value(0x4000));
    assert_eq!(vec![0xff, 0xff, 0xff, 0x7f], convert_variable_value(0x0fff_ffff));
}

#[test]
fn variable_value_reads_back() {
    for v in [0usize, 1, 0x7f, 0x80, 0x2000, 0x3fff, 0x4000, 0x1f_ffff, 0x0fff_ffff] {
        let mut bytes = convert_variable_value(v);
        let n = bytes.len();
        bytes.push(0x55);
        assert!(matches!(get_variable_value(&bytes), Ok((x, k)) if x == v && k == n));
    }
}

#[test]
fn variable_value_errors() {
    assert!(matches!(get_variable_value(&[]), Err(MidiError::LengthError)));
    assert!(matches!(get_variable_value(&[0x81, 0x82]), Err(MidiError::LengthError)));
    assert!(matches!(
        get_variable_value(&[0x81, 0x81, 0x81, 0x81, 0x81, 0x01]),
        Err(MidiError::LengthError)
    ));
    assert!(matches!(
        get_variable_value(&[0x81, 0x80, 0x80, 0x80, 0x00]),
        Err(MidiError::LengthError)
    ));
    assert!(matches!(get_variable_value(&[0x81, 0x81, 0x81, 0x01]), Ok((_, 4))));
}

#[test]
fn u16_from_bytes() {
    assert_eq!(to_u16(0x01, 0xe0), 480);
    assert_eq!(to_u16(0xff, 0xff), 0xffff);
    assert_eq!(to_u16(0, 7), 7);
}

#[test]
fn format_codes() {
    assert!(matches!(Format::try_from(0), Ok(Format::Format0)));
    assert!(matches!(Format::try_from(1), Ok(Format::Format1)));
    assert!(matches!(Format::try_from(2), Ok(Format::Format2)));
    assert!(matches!(Format::try_from(3), Err(MidiError::UnknownFormat)));
    assert_eq!(Format::Format2.code(), 2);
}

fn header(format: u8, tracks: u8) -> Vec<u8> {
    vec![0x4d, 0x54, 0x68, 0x64, 0, 0, 0, 6, 0, format, 0, tracks, 0x01, 0xe0]
}

fn track(body: &[u8]) -> Vec<u8> {
    let mut t = vec![0x4d, 0x54, 0x72, 0x6b, 0, 0, 0, body.len() as u8];
    t.extend_from_slice(body);
    t
}

fn simple_song() -> Vec<u8> {
    let mut d = header(0, 1);
    d.extend(track(&[0x00, 0x91, 0x3c, 0x40, 0x60, 0x81, 0x3c, 0x00, 0x00, 0xff, 0x2f, 0x00]));
    d
}

#[test]
fn header_reads_and_writes_back() {
    let d = header(1, 2);
    let h = MidiHeader::try_from(&d).unwrap();
    assert!(matches!(h.format(), Format::Format1));
    assert_eq!(h.tracks(), 2);
    assert_eq!(h.time_unit(), 480);
    assert_eq!(h.to_binary(), d);
}

#[test]
fn header_errors() {
    let mut bad_magic = header(0, 1);
    bad_magic[0] = 0x4e;
    assert!(matches!(MidiHeader::try_from(&bad_magic), Err(MidiError::InvalidFileFormat(0))));
    let mut bad_len = header(0, 1);
    bad_len[7] = 7;
    assert!(matches!(MidiHeader::try_from(&bad_len), Err(MidiError::InvalidHeader)));
    let bad_format = header(3, 1);
    assert!(matches!(MidiHeader::try_from(&bad_format), Err(MidiError::UnknownFormat)));
    assert!(MidiHeader::scan(&header(0, 1)[..10]).is_none());
}

#[test]
fn song_reads_events() {
    let d = simple_song();
    let info = MidiInfo::try_from(d.as_slice()).unwrap();
    assert!(matches!(info.get_header().format(), Format::Format0));
    let tracks = info.get_tracks();
    assert_eq!(tracks.len(), 1);
    let evs = &tracks[0];
    assert_eq!(evs.len(), 3);
    assert_eq!(evs[0].delta_time, 0);
    assert_eq!(evs[0].status_byte(), 0x90);
    assert_eq!(evs[0].ch(), 1);
    assert_eq!(evs[0].data(), &[0x3c, 0x40]);
    assert_eq!(evs[1].delta_time, 0x60);
    assert_eq!(evs[1].status_byte(), 0x80);
    assert!(evs[2].is_meta());
    assert!(evs[2].is_end_of_track());
    assert!(!evs[0].is_end_of_track());
}

#[test]
fn running_status_is_read() {
    let mut d = header(0, 1);
    d.extend(track(&[0x00, 0x90, 0x3c, 0x40, 0x10, 0x3e, 0x40, 0x00, 0xff, 0x2f, 0x00]));
    let info = MidiInfo::try_from(d.as_slice()).unwrap();
    let evs = &info.get_tracks()[0];
    assert_eq!(evs.len(), 3);
    assert_eq!(evs[1].status_byte(), 0x90);
    assert_eq!(evs[1].data(), &[0x3e, 0x40]);
    assert_eq!(evs[1].delta_time, 0x10);
}

#[test]
fn song_writes_back() {
    let d = simple_song();
    let info = MidiInfo::try_from(d.as_slice()).unwrap();
    let out = info.construct(&MidiConfig::default());
    assert_eq!(out, d);
}

#[test]
fn construct_drops_sysex_and_text() {
    let mut d = header(0, 1);
    d.extend(track(&[
        0x00, 0xf0, 0x02, 0x43, 0xf7, 0x00, 0xff, 0x01, 0x01, 0x41, 0x00, 0xff, 0x2f, 0x00,
    ]));
    let info = MidiInfo::try_from(d.as_slice()).unwrap();
    assert_eq!(info.get_tracks()[0].len(), 3);
    assert!(info.get_tracks()[0][0].is_sysex());
    let no_sysex = info.construct(&MidiConfig { ignore_text: false, sysex_ignore: true });
    let mut expect = header(0, 1);
    expect.extend(track(&[0x00, 0xff, 0x01, 0x01, 0x41, 0x00, 0xff, 0x2f, 0x00]));
    assert_eq!(no_sysex, expect);
    let neither = info.construct(&MidiConfig { ignore_text: true, sysex_ignore: true });
    let mut expect2 = header(0, 1);
    expect2.extend(track(&[0x00, 0xff, 0x2f, 0x00]));
    assert_eq!(neither, expect2);
}

#[test]
fn track_errors() {
    let mut bad_track = header(0, 1);
    bad_track.extend([0x4d, 0x54, 0x72, 0x6c, 0, 0, 0, 0]);
    assert!(matches!(MidiInfo::try_from(bad_track.as_slice()), Err(MidiError::InvalidFileFormat(1))));
    let mut unknown = header(0, 1);
    unknown.extend(track(&[0x00, 0xf4, 0x00]));
    assert!(matches!(
        MidiInfo::try_from(unknown.as_slice()),
        Err(MidiError::UnknownEventFormat(0xf4))
    ));
    let mut no_status = header(0, 1);
    no_status.extend(track(&[0x00, 0x3c, 0x40]));
    assert!(matches!(
        MidiInfo::try_from(no_status.as_slice()),
        Err(MidiError::UnknownEventFormat(0))
    ));
    let short = &simple_song()[..20];
    assert!(MidiInfo::parse(short).is_none());
}

#[test]
fn format0_merge_keeps_time_order() {
    let mut d = header(1, 2);
    d.extend(track(&[0x00, 0x90, 0x3c, 0x40, 0x20, 0x80, 0x3c, 0x00, 0x00, 0xff, 0x2f, 0x00]));
    d.extend(track(&[0x10, 0x91, 0x40, 0x40, 0x20, 0x81, 0x40, 0x00, 0x00, 0xff, 0x2f, 0x00]));
    let info = MidiInfo::try_from(d.as_slice()).unwrap();
    let merged = info.convert_to_format0();
    assert!(matches!(merged.get_header().format(), Format::Format0));
    assert_eq!(merged.get_header().tracks(), 1);
    assert_eq!(merged.get_header().time_unit(), 480);
    let evs = &merged.get_tracks()[0];
    let got: Vec<(usize, u8, u8)> = evs.iter().map(|e| (e.delta_time, e.status_byte(), e.ch())).collect();
    assert_eq!(got, vec![(0, 0x90, 0), (0x10, 0x90, 1), (0x10, 0x80, 0), (0x10, 0x80, 1)]);
}

#[test]
fn event_binary_and_copy() {
    let e = MidiEvent { delta_time: 0x80, ch: 2, status_byte: 0xb0, data: vec![7, 100] };
    assert_eq!(e.to_binary(), vec![0x81, 0x00, 0xb2, 7, 100]);
    let meta = MidiEvent { delta_time: 0, ch: 0, status_byte: 0xff, data: vec![0x51, 3, 7, 0xa1, 0x20] };
    assert_eq!(meta.to_binary(), vec![0x00, 0xff, 0x51, 3, 7, 0xa1, 0x20]);
    let e2 = e.new_with(&[7, 1]);
    assert_eq!(e2.data(), &[7, 1]);
    assert_eq!(e2.status_byte(), 0xb0);
    let e3 = e.duplicate();
    assert_eq!(e3.to_binary(), e.to_binary());
}

fn events_of(info: &MidiInfo) -> Vec<Vec<(usize, u8, u8, Vec<u8>)>> {
    info.get_tracks()
        .iter()
        .map(|t| t.iter().map(|e| (e.delta_time, e.ch(), e.status_byte(), e.data().to_vec())).collect())
        .collect()
}

#[test]
fn written_song_reads_back() {
    let header = MidiHeader::try_from(&header(1, 2)).unwrap();
    let t0 = vec![
        MidiEvent { delta_time: 0, ch: 0, status_byte: 0xff, data: vec![0x03, 0x02, 0x41, 0x42] },
        MidiEvent { delta_time: 0x81, ch: 3, status_byte: 0xc0, data: vec![5] },
        MidiEvent { delta_time: 0, ch: 0, status_byte: 0xf0, data: vec![0x7e, 0x7f, 0xf7] },
        MidiEvent { delta_time: 0x3fff, ch: 15, status_byte: 0xe0, data: vec![0, 0x40] },
        MidiEvent { delta_time: 0, ch: 0, status_byte: 0xff, data: vec![0x2f, 0x00] },
    ];
    let t1 = vec![MidiEvent { delta_time: 0, ch: 0, status_byte: 0xff, data: vec![0x2f, 0x00] }];
    let info = MidiInfo { header, tracks: vec![t0, t1] };
    let bytes = info.construct(&MidiConfig::default());
    let back = MidiInfo::try_from(bytes.as_slice()).unwrap();
    assert_eq!(events_of(&back), events_of(&info));
    assert_eq!(back.get_header().tracks(), 2);
}

#[test]
fn rewritten_file_reads_the_same() {
    let mut d = header(0, 1);
    d.extend(track(&[0x00, 0x90, 0x3c, 0x40, 0x10, 0x3e, 0x40, 0x00, 0xff, 0x2f, 0x00]));
    let first = MidiInfo::try_from(d.as_slice()).unwrap();
    let rewritten = first.construct(&MidiConfig::default());
    assert_ne!(rewritten, d);
    let second = MidiInfo::try_from(rewritten.as_slice()).unwrap();
    assert_eq!(events_of(&second), events_of(&first));
}

#[test]
fn format0_merge_keeps_all_but_end_of_track() {
    let mut d = header(1, 3);
    d.extend(track(&[0x00, 0xff, 0x51, 0x03, 0x07, 0xa1, 0x20, 0x00, 0xff, 0x2f, 0x00]));
    d.extend(track(&[0x00, 0x90, 0x3c, 0x40, 0x20, 0x80, 0x3c, 0x00, 0x00, 0xff, 0x2f, 0x00]));
    d.extend(track(&[0x05, 0xc1, 0x10, 0x00, 0xff, 0x2f, 0x00]));
    let info = MidiInfo::try_from(d.as_slice()).unwrap();
    let merged = info.convert_to_format0();
    let evs = &merged.get_tracks()[0];
    assert_eq!(evs.len(), 4);
    assert!(evs.iter().all(|e| !e.is_end_of_track()));
}

#[test]
fn format0_merge_counts_from_a_dropped_end_of_track() {
    let mut d = header(1, 2);
    d.extend(track(&[0x64, 0xff, 0x2f, 0x00]));
    d.extend(track(&[0x81, 0x48, 0x90, 0x3c, 0x40, 0x00, 0xff, 0x2f, 0x00]));
    let info = MidiInfo::try_from(d.as_slice()).unwrap();
    let merged = info.convert_to_format0();
    let evs = &merged.get_tracks()[0];
    assert_eq!(evs.len(), 1);
    assert_eq!(evs[0].delta_time, 100);
    assert_eq!(evs[0].status_byte(), 0x90);
}

#[test]
fn variable_value_writes_back() {
    for bytes in [vec![0x00u8], vec![0x7f], vec![0x81, 0x00], vec![0xc0, 0x80, 0x01], vec![0xff, 0xff, 0xff, 0x7f]] {
        let (v, n) = get_variable_value(&bytes).unwrap();
        assert_eq!(n, bytes.len());
        assert_eq!(convert_variable_value(v), bytes);
    }
}

#[test]
fn format0_merge_keeps_the_events_themselves() {
    let mut d = header(1, 2);
    d.extend(track(&[0x00, 0xff, 0x03, 0x01, 0x41, 0x08, 0x90, 0x40, 0x40, 0x00, 0xff, 0x2f, 0x00]));
    d.extend(track(&[0x04, 0xb1, 0x07, 0x64, 0x04, 0xb1, 0x07, 0x64, 0x00, 0xff, 0x2f, 0x00]));
    let info = MidiInfo::try_from(d.as_slice()).unwrap();
    let mut before: Vec<(u8, u8, Vec<u8>)> = info
        .get_tracks()
        .iter()
        .flatten()
        .filter(|e| !e.is_end_of_track())
        .map(|e| (e.ch(), e.status_byte(), e.data().to_vec()))
        .collect();
    let merged = info.convert_to_format0();
    let mut after: Vec<(u8, u8, Vec<u8>)> = merged.get_tracks()[0]
        .iter()
        .map(|e| (e.ch(), e.status_byte(), e.data().to_vec()))
        .collect();
    before.sort();
    after.sort();
    assert_eq!(before, after);
    assert_eq!(after.len(), 4);
}
