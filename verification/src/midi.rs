//! Standard MIDI Files: the header chunk, the events of a track chunk, and
//! the file as a whole.
use vstd::prelude::*;

use crate::utils::{be_u32, u32_from};
pub use crate::vlq::{convert_variable_value, get_variable_value};
use crate::vlq::{vlq_decode, vlq_bytes, lemma_vlq_end_props};

verus! {

/// What can be wrong with a MIDI file.
#[derive(Debug, Clone, Copy)]
pub enum MidiError {
    /// A chunk does not start with its magic: 0 for the header, 1 for a track.
    InvalidFileFormat(u8),
    InvalidHeader,
    UnknownFormat,
    LengthError,
    UnknownEventFormat(u8),
    UnknownEvent(u8),
    Custom(&'static str),
}

/// Options for re-encoding a file.
#[derive(Debug, Default)]
pub struct MidiConfig {
    /// Leave out the text meta events (types below `0x0A`).
    pub ignore_text: bool,
    /// Leave out the system exclusive events.
    pub sysex_ignore: bool,
}

/// The format word of the header chunk.
#[derive(Debug, Clone, Copy, PartialEq, Eq, Structural)]
pub enum Format {
    Format0,
    Format1,
    Format2,
}

/// The number that stands for a format in the header chunk.
pub open spec fn format_code(f: Format) -> u16 {
    match f {
        Format::Format0 => 0,
        Format::Format1 => 1,
        Format::Format2 => 2,
    }
}

impl Format {
    /// The format that `value` stands for: 0, 1 or 2.
    pub fn try_from(value: u16) -> (r: Result<Format, MidiError>)
        ensures
            value <= 2 ==> (r matches Ok(f) && format_code(f) == value),
            value > 2 ==> r matches Err(MidiError::UnknownFormat),
    {
        match value {
            0 => Ok(Format::Format0),
            1 => Ok(Format::Format1),
            2 => Ok(Format::Format2),
            _ => Err(MidiError::UnknownFormat),
        }
    }

    /// The number that stands for this format.
    pub fn code(&self) -> (r: u16)
        ensures
            r == format_code(*self),
    {
        match self {
            Format::Format0 => 0,
            Format::Format1 => 1,
            Format::Format2 => 2,
        }
    }
}

/// The header chunk: format, number of tracks and time unit.
#[derive(Debug, Clone, Copy)]
pub struct MidiHeader {
    pub format: Format,
    pub time_unit: u16,
    pub tracks: u16,
}

/// The high byte of a 16-bit word.
pub open spec fn hi(w: u16) -> u8 {
    (w / 256) as u8
}

/// The low byte of a 16-bit word.
pub open spec fn lo(w: u16) -> u8 {
    (w % 256) as u8
}

/// The big-endian value of two bytes.
pub open spec fn be_u16(h: u8, l: u8) -> u16 {
    (h * 256 + l) as u16
}

/// The fourteen bytes of the header chunk of `h`.
pub open spec fn header_bytes(h: MidiHeader) -> Seq<u8> {
    seq![
        0x4D, 0x54, 0x68, 0x64,
        0x00, 0x00, 0x00, 0x06,
        0x00, format_code(h.format) as u8,
        hi(h.tracks), lo(h.tracks),
        hi(h.time_unit), lo(h.time_unit),
    ]
}

/// The magic of the header chunk, "MThd".
pub open spec fn mthd() -> Seq<u8> {
    seq![0x4Du8, 0x54, 0x68, 0x64]
}

/// The magic of a track chunk, "MTrk".
pub open spec fn mtrk() -> Seq<u8> {
    seq![0x4Du8, 0x54, 0x72, 0x6b]
}

/// The format that a format word stands for.
pub open spec fn format_of(code: u16) -> Format {
    if code == 0 {
        Format::Format0
    } else if code == 1 {
        Format::Format1
    } else {
        Format::Format2
    }
}

/// What reading a header chunk at the start of `d` gives: `None` where `d`
/// ends before a byte that the reading needs, else the header or the error.
/// The checks come in this order: magic, chunk length 6, format word.
pub open spec fn spec_parse_header(d: Seq<u8>) -> Option<Result<MidiHeader, MidiError>> {
    if d.len() < 4 {
        None
    } else if d.take(4) != mthd() {
        Some(Err(MidiError::InvalidFileFormat(0)))
    } else if d.len() < 8 {
        None
    } else if be_u32(d[4], d[5], d[6], d[7]) != 6 {
        Some(Err(MidiError::InvalidHeader))
    } else if d.len() < 10 {
        None
    } else if be_u16(d[8], d[9]) > 2 {
        Some(Err(MidiError::UnknownFormat))
    } else if d.len() < 14 {
        None
    } else {
        Some(
            Ok(
                MidiHeader {
                    format: format_of(be_u16(d[8], d[9])),
                    time_unit: be_u16(d[12], d[13]),
                    tracks: be_u16(d[10], d[11]),
                },
            ),
        )
    }
}

/// The big-endian word of two bytes.
pub fn to_u16(h: u8, l: u8) -> (r: u16)
    ensures
        r == be_u16(h, l),
{
    let r = ((h as u16) << 8) | (l as u16);
    assert(r == h * 256 + l) by (bit_vector)
        requires
            r == ((h as u16) << 8) | (l as u16),
    ;
    r
}

fn u16_hi(w: u16) -> (r: u8)
    ensures
        r == hi(w),
{
    let r = (w >> 8) as u8;
    assert(r == (w / 256) as u8) by (bit_vector)
        requires
            r == (w >> 8) as u8,
    ;
    r
}

fn u16_lo(w: u16) -> (r: u8)
    ensures
        r == lo(w),
{
    let r = w as u8;
    assert(r == (w % 256) as u8) by (bit_vector)
        requires
            r == w as u8,
    ;
    r
}

impl MidiHeader {
    /// The header chunk as bytes.
    pub fn to_binary(&self) -> (r: Vec<u8>)
        ensures
            r@ == header_bytes(*self),
    {
        let mut data = Vec::with_capacity(14);
        data.push(0x4D);
        data.push(0x54);
        data.push(0x68);
        data.push(0x64);
        data.push(0x00);
        data.push(0x00);
        data.push(0x00);
        data.push(0x06);
        data.push(0x00);
        data.push(self.format.code() as u8);
        data.push(u16_hi(self.tracks));
        data.push(u16_lo(self.tracks));
        data.push(u16_hi(self.time_unit));
        data.push(u16_lo(self.time_unit));
        assert(data@ =~= header_bytes(*self));
        data
    }

    /// The format of the file.
    pub fn format(&self) -> (r: Format)
        ensures
            r == self.format,
    {
        self.format
    }

    /// The number of track chunks.
    pub fn tracks(&self) -> (r: u16)
        ensures
            r == self.tracks,
    {
        self.tracks
    }

    /// The time unit (ticks per quarter note).
    pub fn time_unit(&self) -> (r: u16)
        ensures
            r == self.time_unit,
    {
        self.time_unit
    }

    /// Reads the header chunk at the start of `data`: `None` where `data`
    /// ends before a byte that the reading needs.
    pub fn scan(data: &[u8]) -> (r: Option<Result<MidiHeader, MidiError>>)
        ensures
            r == spec_parse_header(data@),
    {
        if data.len() < 4 {
            return None;
        }
        let magic: [u8; 4] = [0x4d, 0x54, 0x68, 0x64];
        if data[0] != magic[0] || data[1] != magic[1] || data[2] != magic[2] || data[3] != magic[3] {
            proof {
                if data@.take(4) == mthd() {
                    assert(data@.take(4)[0] == data@[0]);
                    assert(data@.take(4)[1] == data@[1]);
                    assert(data@.take(4)[2] == data@[2]);
                    assert(data@.take(4)[3] == data@[3]);
                }
            }
            return Some(Err(MidiError::InvalidFileFormat(0)));
        }
        assert(data@.take(4) =~= mthd());
        if data.len() < 8 {
            return None;
        }
        if u32_from(&data[4..data.len()]) != 6 {
            return Some(Err(MidiError::InvalidHeader));
        }
        if data.len() < 10 {
            return None;
        }
        let format = match Format::try_from(to_u16(data[8], data[9])) {
            Ok(f) => f,
            Err(e) => {
                return Some(Err(e));
            },
        };
        if data.len() < 14 {
            return None;
        }
        let time_unit = to_u16(data[12], data[13]);
        let tracks = to_u16(data[10], data[11]);
        Some(Ok(MidiHeader { format, time_unit, tracks }))
    }

    /// Reads the header chunk at the start of `data`.
    pub fn try_from(data: &[u8]) -> (r: Result<MidiHeader, MidiError>)
        requires
            spec_parse_header(data@) is Some,
        ensures
            spec_parse_header(data@) == Some(r),
    {
        Self::scan(data).unwrap()
    }
}

/// Reading the header chunk of a header gives it back.
pub proof fn lemma_header_roundtrip(h: MidiHeader, rest: Seq<u8>)
    ensures
        spec_parse_header(header_bytes(h) + rest) == Some(Ok::<MidiHeader, MidiError>(h)),
{
    let d = header_bytes(h) + rest;
    assert(d.take(4) =~= mthd());
    let t = h.tracks;
    let u = h.time_unit;
    assert(be_u16(hi(t), lo(t)) == t) by (nonlinear_arith);
    assert(be_u16(hi(u), lo(u)) == u) by (nonlinear_arith);
    assert(d[8] == 0 && d[9] == format_code(h.format) as u8);
    assert(d[10] == hi(t) && d[11] == lo(t) && d[12] == hi(u) && d[13] == lo(u));
    assert(format_of(be_u16(d[8], d[9])) == h.format);
}

/// A header that was read back from bytes writes those bytes again.
pub proof fn lemma_header_bytes_of_parse(d: Seq<u8>)
    requires
        spec_parse_header(d) matches Some(Ok(_)),
    ensures
        header_bytes(spec_parse_header(d)->0->Ok_0) == d.take(14),
{
    let h = spec_parse_header(d)->0->Ok_0;
    assert(d.take(4)[0] == d[0] && d.take(4)[1] == d[1] && d.take(4)[2] == d[2] && d.take(4)[3] == d[3]);
    let (a, b, c, e) = (d[4], d[5], d[6], d[7]);
    assert(a == 0 && b == 0 && c == 0 && e == 6) by (nonlinear_arith)
        requires
            a * 0x1000000 + b * 0x10000 + c * 0x100 + e == 6,
    ;
    let (x, y) = (d[10], d[11]);
    assert(hi(be_u16(x, y)) == x && lo(be_u16(x, y)) == y) by (nonlinear_arith);
    let (x2, y2) = (d[12], d[13]);
    assert(hi(be_u16(x2, y2)) == x2 && lo(be_u16(x2, y2)) == y2) by (nonlinear_arith);
    let (f0, f1) = (d[8], d[9]);
    assert(f0 == 0 && f1 <= 2) by (nonlinear_arith)
        requires
            f0 * 256 + f1 <= 2,
    ;
    assert(format_code(h.format) as u8 == d[9]);
    assert(header_bytes(h) =~= d.take(14));
}


/// One event of a track: the ticks since the event before it, the channel,
/// the status (the high nibble for channel messages, the whole byte for
/// system messages) and the bytes that follow the status.
#[derive(Debug)]
pub struct MidiEvent {
    pub delta_time: usize,
    pub ch: u8,
    pub status_byte: u8,
    pub data: Vec<u8>,
}

/// The mathematical value of a `MidiEvent`.
pub struct EventView {
    pub delta_time: usize,
    pub ch: u8,
    pub status_byte: u8,
    pub data: Seq<u8>,
}

impl View for MidiEvent {
    type V = EventView;

    open spec fn view(&self) -> EventView {
        EventView {
            delta_time: self.delta_time,
            ch: self.ch,
            status_byte: self.status_byte,
            data: self.data@,
        }
    }
}

/// The bytes of an event in a track chunk: the delta time, the status byte
/// (with the channel for channel messages), then the data bytes.
pub open spec fn event_bytes(e: EventView) -> Seq<u8> {
    vlq_bytes(e.delta_time as nat) + seq![
        if e.status_byte & 0xf0 == 0xf0 {
            e.status_byte
        } else {
            e.status_byte | e.ch
        },
    ] + e.data
}

/// Whether `is_end_of_track` can read the bytes it looks at.
pub open spec fn eot_readable(e: EventView) -> bool {
    e.status_byte == 0xff ==> (e.data.len() >= 1 && (e.data[0] == 0x2f ==> e.data.len() >= 2))
}

/// The end-of-track meta event.
pub open spec fn is_eot(e: EventView) -> bool {
    e.status_byte == 0xff && e.data[0] == 0x2f && e.data[1] == 0x00
}

impl MidiEvent {
    /// The channel.
    pub fn ch(&self) -> (r: u8)
        ensures
            r == self.ch,
    {
        self.ch
    }

    /// The bytes after the status.
    pub fn data(&self) -> (r: &[u8])
        ensures
            r@ == self.data@,
    {
        self.data.as_slice()
    }

    /// The status.
    pub fn status_byte(&self) -> (r: u8)
        ensures
            r == self.status_byte,
    {
        self.status_byte
    }

    /// The event as bytes of a track chunk.
    pub fn to_binary(&self) -> (r: Vec<u8>)
        ensures
            r@ == event_bytes(self@),
    {
        let mut data = convert_variable_value(self.delta_time);
        let status = if self.status_byte & 0xf0 == 0xf0 {
            self.status_byte
        } else {
            self.status_byte | self.ch
        };
        data.push(status);
        let ghost head = data@;
        let mut i: usize = 0;
        while i < self.data.len()
            invariant
                i <= self.data@.len(),
                data@ == head + self.data@.take(i as int),
            decreases self.data@.len() - i,
        {
            data.push(self.data[i]);
            i += 1;
            assert(data@ =~= head + self.data@.take(i as int));
        }
        assert(self.data@.take(self.data@.len() as int) =~= self.data@);
        data
    }

    /// This event with its data replaced by `data`.
    pub fn new_with(&self, data: &[u8]) -> (r: MidiEvent)
        ensures
            r@ == ev(self.delta_time, self.ch, self.status_byte, data@),
    {
        MidiEvent {
            delta_time: self.delta_time,
            ch: self.ch,
            status_byte: self.status_byte,
            data: vstd::slice::slice_to_vec(data),
        }
    }

    /// A copy of this event.
    pub fn duplicate(&self) -> (r: MidiEvent)
        ensures
            r@ == self@,
    {
        MidiEvent {
            delta_time: self.delta_time,
            ch: self.ch,
            status_byte: self.status_byte,
            data: vstd::slice::slice_to_vec(self.data.as_slice()),
        }
    }

    /// Whether this is the end-of-track meta event.
    pub fn is_end_of_track(&self) -> (r: bool)
        requires
            eot_readable(self@),
        ensures
            r == is_eot(self@),
    {
        self.status_byte == 0xff && self.data[0] == 0x2f && self.data[1] == 0x00
    }

    /// Whether this is a system exclusive event.
    pub fn is_sysex(&self) -> (r: bool)
        ensures
            r == (self.status_byte == 0xf0 || self.status_byte == 0xf7),
    {
        self.status_byte == 0xf0 || self.status_byte == 0xf7
    }

    /// Whether this is a meta event.
    pub fn is_meta(&self) -> (r: bool)
        ensures
            r == (self.status_byte == 0xff),
    {
        self.status_byte == 0xff
    }
}

/// The values of a sequence of events.
pub open spec fn events_view(evs: Seq<MidiEvent>) -> Seq<EventView> {
    evs.map_values(|e: MidiEvent| e@)
}

/// An event with the given parts.
pub open spec fn ev(delta_time: usize, ch: u8, status_byte: u8, data: Seq<u8>) -> EventView {
    EventView { delta_time, ch, status_byte, data }
}

/// Channel messages that carry two data bytes: note off, note on, key
/// pressure, control change, pitch bend.
pub open spec fn is_two_data(st: u8) -> bool {
    st == 0x80 || st == 0x90 || st == 0xA0 || st == 0xB0 || st == 0xE0
}

/// Channel messages that carry one data byte: program change, channel pressure.
pub open spec fn is_one_data(st: u8) -> bool {
    st == 0xC0 || st == 0xD0
}

/// The first index, from `from` on, where `s` holds `b`.
pub open spec fn find_byte(s: Seq<u8>, from: nat, b: u8) -> Option<nat>
    decreases s.len() - from,
{
    if from >= s.len() {
        None
    } else if s[from as int] == b {
        Some(from)
    } else {
        find_byte(s, from + 1, b)
    }
}

/// The outcome of reading one event.
pub enum TrackStep {
    /// The event ends before `pos`; `running` is the running status after it;
    /// `event` is the event, or none for an escape (`0xF7`) event, which is
    /// skipped.
    Next { pos: nat, running: u8, event: Option<EventView> },
    Fail(MidiError),
    /// The track ends before a byte that the reading needs.
    Truncated,
}

/// Reading the event that starts at `p` of `raw` with running status `before`.
pub open spec fn track_step(raw: Seq<u8>, p: nat, before: u8) -> TrackStep {
    match vlq_decode(raw.skip(p as int)) {
        None => TrackStep::Fail(MidiError::LengthError),
        Some((delta, dl)) => {
            let q: int = (p + dl) as int;
            let len: int = raw.len() as int;
            if q >= len {
                TrackStep::Truncated
            } else {
                let b = raw[q];
                let ch = b & 0x0f;
                let st = b & 0xf0;
                if is_two_data(st) {
                    if len - q > 2 {
                        TrackStep::Next {
                            pos: (q + 3) as nat,
                            running: b,
                            event: Some(ev(delta, ch, st, seq![raw[q + 1], raw[q + 2]])),
                        }
                    } else {
                        TrackStep::Truncated
                    }
                } else if is_one_data(st) {
                    if q + 1 < len {
                        TrackStep::Next {
                            pos: (q + 2) as nat,
                            running: b,
                            event: Some(ev(delta, ch, st, seq![raw[q + 1]])),
                        }
                    } else {
                        TrackStep::Truncated
                    }
                } else if st == 0xf0 {
                    if b == 0xf7 {
                        let r: int = q + 1;
                        if len - r < 2 {
                            TrackStep::Truncated
                        } else {
                            match vlq_decode(raw.skip(r + 2)) {
                                None => TrackStep::Fail(MidiError::LengthError),
                                Some((ml, lb)) => if r + lb + ml > len {
                                    TrackStep::Truncated
                                } else {
                                    TrackStep::Next { pos: (r + lb + ml) as nat, running: 0, event: None }
                                },
                            }
                        }
                    } else if b == 0xf0 {
                        match find_byte(raw, (q + 1) as nat, 0xf7) {
                            None => TrackStep::Truncated,
                            Some(k) => TrackStep::Next {
                                pos: k + 1,
                                running: 0,
                                event: Some(
                                    ev(delta, 0, 0xf0, raw.subrange(q + 1, k as int) + seq![0xf7u8]),
                                ),
                            },
                        }
                    } else if b == 0xff {
                        if q + 1 >= len {
                            TrackStep::Truncated
                        } else {
                            match vlq_decode(raw.skip(q + 2)) {
                                None => TrackStep::Fail(MidiError::LengthError),
                                Some((ml, lb)) => if q + 2 + lb + ml > len {
                                    TrackStep::Truncated
                                } else {
                                    TrackStep::Next {
                                        pos: (q + 2 + lb + ml) as nat,
                                        running: 0,
                                        event: Some(
                                            ev(
                                                delta,
                                                0,
                                                0xff,
                                                seq![raw[q + 1]] + raw.subrange(
                                                    q + 2,
                                                    q + 2 + lb + ml,
                                                ),
                                            ),
                                        ),
                                    }
                                },
                            }
                        }
                    } else {
                        TrackStep::Fail(MidiError::UnknownEventFormat(b))
                    }
                } else if st < 0x80 {
                    let rch = before & 0x0f;
                    let rst = before & 0xf0;
                    if is_two_data(rst) {
                        if q + 1 < len {
                            TrackStep::Next {
                                pos: (q + 2) as nat,
                                running: before,
                                event: Some(ev(delta, rch, rst, seq![raw[q], raw[q + 1]])),
                            }
                        } else {
                            TrackStep::Truncated
                        }
                    } else if is_one_data(rst) {
                        TrackStep::Next {
                            pos: (q + 1) as nat,
                            running: before,
                            event: Some(ev(delta, rch, rst, seq![raw[q]])),
                        }
                    } else {
                        TrackStep::Fail(MidiError::UnknownEventFormat(before))
                    }
                } else {
                    TrackStep::Fail(MidiError::UnknownEvent(st))
                }
            }
        },
    }
}

/// The outcome of reading a whole track.
pub enum TrackParse {
    Events(Seq<EventView>),
    Failed(MidiError),
    /// The track ends before a byte that the reading needs.
    Truncated,
}

/// The seq of an optional event.
pub open spec fn opt_seq(e: Option<EventView>) -> Seq<EventView> {
    match e {
        Some(x) => seq![x],
        None => seq![],
    }
}

/// Reading the events of `raw` from `p` on, with running status `before`,
/// after the events `acc`.
pub open spec fn parse_events_from(raw: Seq<u8>, p: nat, before: u8, acc: Seq<EventView>) -> TrackParse
    decreases raw.len() - p,
{
    if p >= raw.len() {
        TrackParse::Events(acc)
    } else {
        match track_step(raw, p, before) {
            TrackStep::Fail(e) => TrackParse::Failed(e),
            TrackStep::Truncated => TrackParse::Truncated,
            TrackStep::Next { pos, running, event } => if p < pos <= raw.len() {
                parse_events_from(raw, pos, running, acc + opt_seq(event))
            } else {
                TrackParse::Truncated
            },
        }
    }
}

/// Reading the events of a track chunk's body.
pub open spec fn spec_parse_track(raw: Seq<u8>) -> TrackParse {
    parse_events_from(raw, 0, 0, seq![])
}


/// A variable-length quantity that reads takes one to four bytes of `s`.
pub proof fn lemma_vlq_decode_len(s: Seq<u8>)
    requires
        vlq_decode(s) is Some,
    ensures
        1 <= vlq_decode(s).unwrap().1 <= s.len(),
        vlq_decode(s).unwrap().1 <= 4,
{
    lemma_vlq_end_props(s, 0);
}

/// `find_byte` gives the first index from `from` on that holds `b`.
pub proof fn lemma_find_byte(s: Seq<u8>, from: nat, b: u8)
    ensures
        find_byte(s, from, b) matches Some(k) ==> from <= k < s.len() && s[k as int] == b
            && forall|j: int| from <= j < k ==> s[j] != b,
        find_byte(s, from, b) is None ==> forall|j: int| from <= j < s.len() ==> s[j] != b,
    decreases s.len() - from,
{
    if from < s.len() && s[from as int] != b {
        lemma_find_byte(s, from + 1, b);
    }
}

/// Reading an event always moves forward and stays within the track.
pub proof fn lemma_track_step_progress(raw: Seq<u8>, p: nat, before: u8)
    requires
        p < raw.len(),
    ensures
        track_step(raw, p, before) matches TrackStep::Next { pos, .. } ==> p < pos <= raw.len(),
{
    let s = raw.skip(p as int);
    if let Some((delta, dl)) = vlq_decode(s) {
        lemma_vlq_decode_len(s);
        lemma_find_byte(raw, (p + dl + 1) as nat, 0xf7);
    }
}

/// What an exec step of the track reader gives.
pub enum ReadStep {
    Next(usize, u8, Option<MidiEvent>),
    Fail(MidiError),
    Truncated,
}

/// The value of an optional event.
pub open spec fn opt_view(e: Option<MidiEvent>) -> Option<EventView> {
    match e {
        Some(x) => Some(x@),
        None => None,
    }
}

/// An exec step gives what the spec step gives.
pub open spec fn step_matches(r: ReadStep, s: TrackStep) -> bool {
    match r {
        ReadStep::Next(p, b, e) => s matches TrackStep::Next { pos, running, event } && pos == p
            && running == b && event == opt_view(e),
        ReadStep::Fail(e) => s == TrackStep::Fail(e),
        ReadStep::Truncated => s is Truncated,
    }
}

fn new_event(delta_time: usize, ch: u8, status_byte: u8, data: Vec<u8>) -> (r: MidiEvent)
    ensures
        r@ == ev(delta_time, ch, status_byte, data@),
{
    MidiEvent { delta_time, ch, status_byte, data }
}

/// Reads the event that starts at `p` of `raw` with running status `before`.
fn read_event(raw: &[u8], p: usize, before: u8) -> (r: ReadStep)
    requires
        p < raw@.len(),
    ensures
        step_matches(r, track_step(raw@, p as nat, before)),
{
    let len = raw.len();
    assert(raw@.subrange(p as int, len as int) =~= raw@.skip(p as int));
    let (delta, dl) = match get_variable_value(&raw[p..len]) {
        Ok(x) => x,
        Err(e) => {
            return ReadStep::Fail(e);
        },
    };
    proof {
        lemma_vlq_decode_len(raw@.skip(p as int));
    }
    let q = p + dl;
    if q >= len {
        return ReadStep::Truncated;
    }
    let b = raw[q];
    let ch = b & 0x0f;
    let st = b & 0xf0;
    if st == 0x80 || st == 0x90 || st == 0xA0 || st == 0xB0 || st == 0xE0 {
        if len - q > 2 {
            let mut data = Vec::new();
            data.push(raw[q + 1]);
            data.push(raw[q + 2]);
            assert(data@ =~= seq![raw@[q + 1], raw@[q + 2]]);
            ReadStep::Next(q + 3, b, Some(new_event(delta, ch, st, data)))
        } else {
            ReadStep::Truncated
        }
    } else if st == 0xC0 || st == 0xD0 {
        if q + 1 < len {
            let mut data = Vec::new();
            data.push(raw[q + 1]);
            assert(data@ =~= seq![raw@[q + 1]]);
            ReadStep::Next(q + 2, b, Some(new_event(delta, ch, st, data)))
        } else {
            ReadStep::Truncated
        }
    } else if st == 0xf0 {
        if b == 0xf7 {
            let r = q + 1;
            if len - r < 2 {
                return ReadStep::Truncated;
            }
            assert(raw@.subrange((r + 2) as int, len as int) =~= raw@.skip(r + 2));
            let (ml, lb) = match get_variable_value(&raw[r + 2..len]) {
                Ok(x) => x,
                Err(e) => {
                    return ReadStep::Fail(e);
                },
            };
            proof {
                lemma_vlq_decode_len(raw@.skip(r + 2));
            }
            if ml > len - (r + lb) {
                ReadStep::Truncated
            } else {
                ReadStep::Next(r + lb + ml, 0, None)
            }
        } else if b == 0xf0 {
            let mut k = q + 1;
            let mut data: Vec<u8> = Vec::new();
            while k < len && raw[k] != 0xf7
                invariant
                    q + 1 <= k <= len,
                    len == raw@.len(),
                    data@ == raw@.subrange(q + 1, k as int),
                    forall|j: int| q + 1 <= j < k ==> raw@[j] != 0xf7,
                decreases len - k,
            {
                data.push(raw[k]);
                k += 1;
                assert(data@ =~= raw@.subrange(q + 1, k as int));
            }
            proof {
                lemma_find_byte(raw@, (q + 1) as nat, 0xf7);
            }
            if k >= len {
                ReadStep::Truncated
            } else {
                data.push(0xf7);
                assert(data@ =~= raw@.subrange(q + 1, k as int) + seq![0xf7u8]);
                ReadStep::Next(k + 1, 0, Some(new_event(delta, 0, 0xf0, data)))
            }
        } else if b == 0xff {
            if q + 1 >= len {
                return ReadStep::Truncated;
            }
            let meta_type = raw[q + 1];
            assert(raw@.subrange((q + 2) as int, len as int) =~= raw@.skip(q + 2));
            let (ml, lb) = match get_variable_value(&raw[q + 2..len]) {
                Ok(x) => x,
                Err(e) => {
                    return ReadStep::Fail(e);
                },
            };
            proof {
                lemma_vlq_decode_len(raw@.skip(q + 2));
            }
            if ml > len - (q + 2 + lb) {
                ReadStep::Truncated
            } else {
                let end = q + 2 + lb + ml;
                let mut data = Vec::new();
                data.push(meta_type);
                let mut k = q + 2;
                while k < end
                    invariant
                        q + 2 <= k <= end <= len,
                        len == raw@.len(),
                        data@ == seq![meta_type] + raw@.subrange(q + 2, k as int),
                    decreases end - k,
                {
                    data.push(raw[k]);
                    k += 1;
                    assert(data@ =~= seq![meta_type] + raw@.subrange(q + 2, k as int));
                }
                ReadStep::Next(end, 0, Some(new_event(delta, 0, 0xff, data)))
            }
        } else {
            ReadStep::Fail(MidiError::UnknownEventFormat(b))
        }
    } else if st < 0x80 {
        let rch = before & 0x0f;
        let rst = before & 0xf0;
        if rst == 0x80 || rst == 0x90 || rst == 0xA0 || rst == 0xB0 || rst == 0xE0 {
            if q + 1 < len {
                let mut data = Vec::new();
                data.push(raw[q]);
                data.push(raw[q + 1]);
                assert(data@ =~= seq![raw@[q as int], raw@[q + 1]]);
                ReadStep::Next(q + 2, before, Some(new_event(delta, rch, rst, data)))
            } else {
                ReadStep::Truncated
            }
        } else if rst == 0xC0 || rst == 0xD0 {
            let mut data = Vec::new();
            data.push(raw[q]);
            assert(data@ =~= seq![raw@[q as int]]);
            ReadStep::Next(q + 1, before, Some(new_event(delta, rch, rst, data)))
        } else {
            ReadStep::Fail(MidiError::UnknownEventFormat(before))
        }
    } else {
        ReadStep::Fail(MidiError::UnknownEvent(st))
    }
}


/// Reads the events of a track chunk's body: `None` where the body ends
/// before a byte that the reading needs.
pub fn scan_track(raw: &[u8]) -> (r: Option<Result<Vec<MidiEvent>, MidiError>>)
    ensures
        match spec_parse_track(raw@) {
            TrackParse::Events(evs) => r matches Some(Ok(v)) && events_view(v@) == evs,
            TrackParse::Failed(e) => r == Some(Err::<Vec<MidiEvent>, MidiError>(e)),
            TrackParse::Truncated => r is None,
        },
{
    let mut i: usize = 0;
    let mut events: Vec<MidiEvent> = Vec::new();
    let mut before: u8 = 0;
    assert(events_view(events@) =~= seq![]);
    while i < raw.len()
        invariant
            i <= raw@.len(),
            parse_events_from(raw@, i as nat, before, events_view(events@)) == spec_parse_track(
                raw@,
            ),
        decreases raw@.len() - i,
    {
        proof {
            lemma_track_step_progress(raw@, i as nat, before);
        }
        match read_event(raw, i, before) {
            ReadStep::Next(p, b, e) => {
                let ghost old_view = events_view(events@);
                match e {
                    Some(x) => {
                        events.push(x);
                        assert(events_view(events@) =~= old_view + opt_seq(opt_view(Some(x))));
                    },
                    None => {
                        assert(events_view(events@) =~= old_view + opt_seq(None));
                    },
                }
                i = p;
                before = b;
            },
            ReadStep::Fail(e) => {
                return Some(Err(e));
            },
            ReadStep::Truncated => {
                return None;
            },
        }
    }
    Some(Ok(events))
}

/// Reads the events of a track chunk's body.
pub fn parse_track(raw: &[u8]) -> (r: Result<Vec<MidiEvent>, MidiError>)
    requires
        !(spec_parse_track(raw@) is Truncated),
    ensures
        match spec_parse_track(raw@) {
            TrackParse::Events(evs) => r matches Ok(v) && events_view(v@) == evs,
            TrackParse::Failed(e) => r == Err::<Vec<MidiEvent>, MidiError>(e),
            TrackParse::Truncated => false,
        },
{
    scan_track(raw).unwrap()
}


/// A parsed file: its header and the events of each track.
#[derive(Debug)]
pub struct MidiInfo {
    pub header: MidiHeader,
    pub tracks: Vec<Vec<MidiEvent>>,
}

/// The mathematical value of a `MidiInfo`.
pub struct InfoView {
    pub header: MidiHeader,
    pub tracks: Seq<Seq<EventView>>,
}

/// The values of the tracks.
pub open spec fn tracks_view(ts: Seq<Vec<MidiEvent>>) -> Seq<Seq<EventView>> {
    ts.map_values(|t: Vec<MidiEvent>| events_view(t@))
}

impl View for MidiInfo {
    type V = InfoView;

    open spec fn view(&self) -> InfoView {
        InfoView { header: self.header, tracks: tracks_view(self.tracks@) }
    }
}

/// Reading `remaining` track chunks of `d` from `pos` on, after the tracks
/// `acc`: `None` where `d` ends before a byte that the reading needs.
pub open spec fn parse_tracks_from(
    d: Seq<u8>,
    pos: int,
    remaining: nat,
    acc: Seq<Seq<EventView>>,
) -> Option<Result<Seq<Seq<EventView>>, MidiError>>
    decreases remaining,
{
    if remaining == 0 {
        Some(Ok(acc))
    } else if pos + 4 > d.len() {
        None
    } else if d.subrange(pos, pos + 4) != mtrk() {
        Some(Err(MidiError::InvalidFileFormat(1)))
    } else if pos + 8 > d.len() {
        None
    } else {
        let size = be_u32(d[pos + 4], d[pos + 5], d[pos + 6], d[pos + 7]);
        if pos + 8 + size > d.len() {
            None
        } else {
            match spec_parse_track(d.subrange(pos + 8, pos + 8 + size)) {
                TrackParse::Truncated => None,
                TrackParse::Failed(e) => Some(Err(e)),
                TrackParse::Events(evs) => parse_tracks_from(
                    d,
                    pos + 8 + size,
                    (remaining - 1) as nat,
                    acc.push(evs),
                ),
            }
        }
    }
}

/// Reading a whole file: the header chunk, then as many track chunks as the
/// header names. `None` where `d` ends before a byte that the reading needs.
pub open spec fn spec_parse_midi(d: Seq<u8>) -> Option<Result<InfoView, MidiError>> {
    match spec_parse_header(d) {
        None => None,
        Some(Err(e)) => Some(Err(e)),
        Some(Ok(h)) => match parse_tracks_from(d, 14, h.tracks as nat, seq![]) {
            None => None,
            Some(Err(e)) => Some(Err(e)),
            Some(Ok(ts)) => Some(Ok(InfoView { header: h, tracks: ts })),
        },
    }
}

impl MidiInfo {
    /// The header.
    pub fn get_header(&self) -> (r: &MidiHeader)
        ensures
            *r == self.header,
    {
        &self.header
    }

    /// The events of each track.
    pub fn get_tracks(&self) -> (r: &[Vec<MidiEvent>])
        ensures
            r@ == self.tracks@,
    {
        self.tracks.as_slice()
    }

    /// Reads a whole file: `None` where `data` ends before a byte that the
    /// reading needs.
    #[verifier::spinoff_prover]
    #[verifier::rlimit(40)]
    pub fn parse(data: &[u8]) -> (r: Option<Result<MidiInfo, MidiError>>)
        ensures
            match spec_parse_midi(data@) {
                None => r is None,
                Some(Err(e)) => r == Some(Err::<MidiInfo, MidiError>(e)),
                Some(Ok(v)) => r matches Some(Ok(info)) && info@ == v,
            },
    {
        let header = match MidiHeader::scan(data) {
            None => {
                return None;
            },
            Some(Err(e)) => {
                return Some(Err(e));
            },
            Some(Ok(h)) => h,
        };
        let len = data.len();
        let mut pos: usize = 14;
        let mut idx: u16 = 0;
        let mut tracks: Vec<Vec<MidiEvent>> = Vec::new();
        assert(tracks_view(tracks@) =~= seq![]);
        while idx < header.tracks
            invariant
                14 <= pos <= len,
                len == data@.len(),
                idx <= header.tracks,
                spec_parse_header(data@) == Some(Ok::<MidiHeader, MidiError>(header)),
                parse_tracks_from(data@, pos as int, (header.tracks - idx) as nat, tracks_view(tracks@))
                    == parse_tracks_from(data@, 14, header.tracks as nat, seq![]),
            decreases header.tracks - idx,
        {
            if len - pos < 4 {
                return None;
            }
            if data[pos] != 0x4d || data[pos + 1] != 0x54 || data[pos + 2] != 0x72 || data[pos + 3]
                != 0x6b {
                proof {
                    let m = data@.subrange(pos as int, pos + 4);
                    if m == mtrk() {
                        assert(m[0] == data@[pos as int] && m[1] == data@[pos + 1] && m[2] == data@[pos
                            + 2] && m[3] == data@[pos + 3]);
                    }
                }
                return Some(Err(MidiError::InvalidFileFormat(1)));
            }
            assert(data@.subrange(pos as int, pos + 4) =~= mtrk());
            if len - pos < 8 {
                return None;
            }
            let size = u32_from(&data[pos + 4..len]) as usize;
            if size > len - pos - 8 {
                return None;
            }
            let raw = &data[pos + 8..pos + 8 + size];
            match scan_track(raw) {
                None => {
                    return None;
                },
                Some(Err(e)) => {
                    return Some(Err(e));
                },
                Some(Ok(evs)) => {
                    let ghost old_view = tracks_view(tracks@);
                    tracks.push(evs);
                    assert(tracks_view(tracks@) =~= old_view.push(events_view(evs@)));
                },
            }
            pos = pos + 8 + size;
            idx = idx + 1;
        }
        Some(Ok(MidiInfo { header, tracks }))
    }

    /// Reads a whole file.
    pub fn try_from(data: &[u8]) -> (r: Result<MidiInfo, MidiError>)
        requires
            spec_parse_midi(data@) is Some,
        ensures
            match spec_parse_midi(data@) {
                None => false,
                Some(Err(e)) => r == Err::<MidiInfo, MidiError>(e),
                Some(Ok(v)) => r matches Ok(info) && info@ == v,
            },
    {
        Self::parse(data).unwrap()
    }
}


/// Whether re-encoding keeps event `e`: system exclusive events go when
/// `sysex_ignore` is set, text meta events (types below `0x0A`) when
/// `ignore_text` is set.
pub open spec fn kept(e: EventView, ignore_text: bool, sysex_ignore: bool) -> bool {
    !(sysex_ignore && (e.status_byte == 0xf0 || e.status_byte == 0xf7)) && !(ignore_text
        && e.status_byte == 0xff && e.data[0] < 0x0A)
}

/// The bytes of the kept events of a track, one after the other.
pub open spec fn body_bytes(evs: Seq<EventView>, ignore_text: bool, sysex_ignore: bool) -> Seq<u8>
    decreases evs.len(),
{
    if evs.len() == 0 {
        seq![]
    } else {
        body_bytes(evs.drop_last(), ignore_text, sysex_ignore) + if kept(
            evs.last(),
            ignore_text,
            sysex_ignore,
        ) {
            event_bytes(evs.last())
        } else {
            seq![]
        }
    }
}

/// The four big-endian bytes of the low 32 bits of `n`.
pub open spec fn be32_bytes(n: nat) -> Seq<u8> {
    seq![
        ((n / 0x1000000) % 256) as u8,
        ((n / 0x10000) % 256) as u8,
        ((n / 0x100) % 256) as u8,
        (n % 256) as u8,
    ]
}

/// A track chunk holding the kept events of `evs`.
pub open spec fn track_chunk(evs: Seq<EventView>, ignore_text: bool, sysex_ignore: bool) -> Seq<u8> {
    let body = body_bytes(evs, ignore_text, sysex_ignore);
    mtrk() + be32_bytes(body.len()) + body
}

/// The track chunks of `ts`, one after the other.
pub open spec fn tracks_bytes(ts: Seq<Seq<EventView>>, ignore_text: bool, sysex_ignore: bool) -> Seq<u8>
    decreases ts.len(),
{
    if ts.len() == 0 {
        seq![]
    } else {
        tracks_bytes(ts.drop_last(), ignore_text, sysex_ignore) + track_chunk(
            ts.last(),
            ignore_text,
            sysex_ignore,
        )
    }
}

/// Whether every meta event of `ts` has a type byte.
pub open spec fn metas_have_type(ts: Seq<Seq<EventView>>) -> bool {
    forall|i: int, j: int|
        0 <= i < ts.len() && 0 <= j < ts[i].len() && (#[trigger] ts[i][j]).status_byte == 0xff
            ==> ts[i][j].data.len() >= 1
}

fn push_all(dst: &mut Vec<u8>, src: &[u8])
    ensures
        final(dst)@ == old(dst)@ + src@,
{
    let ghost head = dst@;
    let mut i: usize = 0;
    while i < src.len()
        invariant
            i <= src@.len(),
            dst@ == head + src@.take(i as int),
        decreases src@.len() - i,
    {
        dst.push(src[i]);
        i += 1;
        assert(dst@ =~= head + src@.take(i as int));
    }
    assert(src@.take(src@.len() as int) =~= src@);
}

fn be32_of(len: usize) -> (r: Vec<u8>)
    ensures
        r@ == be32_bytes(len as nat),
{
    let b0 = (len >> 24) as u8;
    let b1 = (len >> 16) as u8;
    let b2 = (len >> 8) as u8;
    let b3 = len as u8;
    assert(b0 == ((len / 0x1000000) % 256) as u8 && b1 == ((len / 0x10000) % 256) as u8 && b2 == ((len
        / 0x100) % 256) as u8 && b3 == (len % 256) as u8) by (bit_vector)
        requires
            b0 == (len >> 24) as u8,
            b1 == (len >> 16) as u8,
            b2 == (len >> 8) as u8,
            b3 == len as u8,
    ;
    let mut r = Vec::new();
    r.push(b0);
    r.push(b1);
    r.push(b2);
    r.push(b3);
    assert(r@ =~= be32_bytes(len as nat));
    r
}

impl MidiInfo {
    /// The file as bytes: the header chunk, then one track chunk per track,
    /// leaving out the events that `config` drops.
    pub fn construct(&self, config: &MidiConfig) -> (r: Vec<u8>)
        requires
            config.ignore_text ==> metas_have_type(self@.tracks),
        ensures
            r@ == header_bytes(self.header) + tracks_bytes(
                self@.tracks,
                config.ignore_text,
                config.sysex_ignore,
            ),
    {
        let ghost it = config.ignore_text;
        let ghost si = config.sysex_ignore;
        let ghost tv = self@.tracks;
        let mut data = self.header.to_binary();
        let mut t: usize = 0;
        while t < self.tracks.len()
            invariant
                t <= self.tracks@.len(),
                tv == self@.tracks,
                it == config.ignore_text,
                si == config.sysex_ignore,
                config.ignore_text ==> metas_have_type(tv),
                data@ == header_bytes(self.header) + tracks_bytes(tv.take(t as int), it, si),
            decreases self.tracks@.len() - t,
        {
            let events = &self.tracks[t];
            let ghost evs = tv[t as int];
            assert(evs == events_view(events@));
            let mut body: Vec<u8> = Vec::new();
            let mut k: usize = 0;
            while k < events.len()
                invariant
                    k <= events@.len(),
                    evs == events_view(events@),
                    tv == self@.tracks,
                    t < tv.len(),
                    evs == tv[t as int],
                    config.ignore_text ==> metas_have_type(tv),
                    it == config.ignore_text,
                    si == config.sysex_ignore,
                    body@ == body_bytes(evs.take(k as int), it, si),
                decreases events@.len() - k,
            {
                let event = &events[k];
                assert(evs[k as int] == event@);
                assert(evs.take(k + 1).drop_last() =~= evs.take(k as int));
                let keep = if config.sysex_ignore && event.is_sysex() {
                    false
                } else if config.ignore_text && event.is_meta() && event.data()[0] < 0x0A {
                    assert(tv[t as int][k as int] == event@);
                    false
                } else {
                    true
                };
                if keep {
                    let bytes = event.to_binary();
                    push_all(&mut body, bytes.as_slice());
                }
                k += 1;
            }
            assert(evs.take(events@.len() as int) =~= evs);
            let mut chunk: Vec<u8> = Vec::new();
            chunk.push(0x4d);
            chunk.push(0x54);
            chunk.push(0x72);
            chunk.push(0x6b);
            let len_bytes = be32_of(body.len());
            push_all(&mut chunk, len_bytes.as_slice());
            push_all(&mut chunk, body.as_slice());
            assert(chunk@ =~= track_chunk(evs, it, si));
            push_all(&mut data, chunk.as_slice());
            assert(tv.take(t + 1).drop_last() =~= tv.take(t as int));
            t += 1;
            assert(data@ =~= header_bytes(self.header) + tracks_bytes(tv.take(t as int), it, si));
        }
        assert(tv.take(self.tracks@.len() as int) =~= tv);
        data
    }
}

} // verus!
