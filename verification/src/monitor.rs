//! What the terminal monitor keeps of the sequencer's reports, and how each
//! report changes it.
use vstd::prelude::*;

use crate::keyset::{
    key_set_contains,
    key_set_insert,
    key_set_items,
    key_set_len,
    key_set_new,
    key_set_remove,
    set_slots,
    slot_of,
    swap_remove,
};
use crate::midi::MidiConfig;
use crate::sequence_msg::{SequenceEventFlag, SequenceMsg, cvt_string, cvt_text, text_readable};
use crate::structs::{PlayingLog, TrackInfo, TrackView, track_reset};
use crate::utils::{ValidationConf, le_u32, u32_from_le};
use crate::view::{Rhythm, key_slots, rhythm_index, rhythm_of_note};

verus! {

/// The number of keys on the screen's keyboard, from note 24 on.
pub const KEYBOARD_KEYS: usize = 72;

/// The lowest note shown on the screen's keyboard.
pub const KEYBOARD_LOW: u8 = 24;

/// The channels of the YM2608 (FM, SSG and rhythm).
pub const MAX_CHANNELS_YM2608: u8 = 10;

/// The channels of the YM2203.
pub const MAX_CHANNELS_YM2203: u8 = 6;

/// How long a rhythm instrument stays lit, in milliseconds.
pub const WAIT_TIME_FOR_RHYTHM: u64 = 100;

/// What changed on the screen after an event.
#[derive(Debug, Clone, Copy, PartialEq, Eq, Structural)]
pub enum EventInfo {
    NoChange,
    Tempo(u32),
    /// The row of a channel, and whether the keyboard (or rhythm line) too.
    ChInfo(u8, bool),
    UpdateAll,
    /// A rhythm instrument's light went out.
    RhythmNoteOff(u8),
}

/// A report of the sequencer about one channel.
#[derive(Debug)]
pub enum ChannelEvent {
    /// The channel's instrument, by name.
    ProgramChange(String),
    /// A key pressed (velocity above 0) or released (velocity 0).
    KeyEvent(u8, u8),
    Expression(u8),
    /// Pitch bend as its low and high byte.
    PitchBend(u8, u8),
    PanPot(u8),
    ResetAllControllers,
    /// A report that changes nothing shown.
    Other,
}

/// What the monitor keeps.
pub struct AppState {
    pub track_info: Vec<TrackInfo>,
    pub keyboard_state: Vec<micromap::Set<u8, 8>>,
    pub percussion_state: [u8; 6],
    pub title: String,
    pub tempo: u32,
    pub logs: PlayingLog,
    pub midi_config: MidiConfig,
    pub validation_conf: ValidationConf,
    pub ym2608: bool,
    /// The number of channels shown: 10 for the YM2608, else 6.
    pub max_channel: u8,
}

/// The values of the channel rows.
pub open spec fn tracks_of(ts: Seq<TrackInfo>) -> Seq<TrackView> {
    ts.map_values(|t: TrackInfo| t@)
}

/// The pitch bend that two bytes report: 14 bits centred on 0.
pub open spec fn bend_of(lo: u8, hi: u8) -> i32 {
    (lo + hi * 256 - 8192) as i32
}

/// Whether `n` is a note on the screen's keyboard.
pub open spec fn on_keyboard(n: u8) -> bool {
    24 <= n < 96
}

impl AppState {
    /// The sizes agree with the channel count, and no key holds a channel
    /// twice.
    pub open spec fn wf(&self) -> bool {
        &&& self.max_channel == MAX_CHANNELS_YM2608 || self.max_channel == MAX_CHANNELS_YM2203
        &&& self.track_info@.len() == self.max_channel
        &&& self.keyboard_state@.len() == KEYBOARD_KEYS
        &&& forall|k: int|
            0 <= k < self.keyboard_state@.len() ==> set_slots(
                #[trigger] self.keyboard_state@[k],
            ).no_duplicates()
        &&& self.logs.wf()
    }

    /// The state before anything is received.
    pub fn new(ym2608: bool, ignore_text: bool, ignore_sysex: bool) -> (r: AppState)
        ensures
            r.wf(),
            r.max_channel == if ym2608 {
                MAX_CHANNELS_YM2608
            } else {
                MAX_CHANNELS_YM2203
            },
            r.ym2608 == ym2608,
            r.tempo == 60,
            r.title@ == Seq::<char>::empty(),
            r.percussion_state@ == seq![0u8, 0, 0, 0, 0, 0],
            forall|i: int| 0 <= i < r.track_info@.len() ==> #[trigger] r.track_info@[i]@ == track_reset(),
            forall|i: int| 0 <= i < KEYBOARD_KEYS ==> #[trigger] set_slots(r.keyboard_state@[i]) == Seq::<u8>::empty(),
            r.logs.current_id == 0,
            r.logs.logs@.len() == 0,
            r.midi_config.ignore_text == ignore_text,
            r.midi_config.sysex_ignore == ignore_sysex,
            r.validation_conf.ym2608 == ym2608,
    {
        let max_channel = if ym2608 {
            MAX_CHANNELS_YM2608
        } else {
            MAX_CHANNELS_YM2203
        };
        let mut track_info: Vec<TrackInfo> = Vec::new();
        let mut i: u8 = 0;
        while i < max_channel
            invariant
                i <= max_channel,
                track_info@.len() == i,
                forall|j: int| 0 <= j < i ==> #[trigger] track_info@[j]@ == track_reset(),
            decreases max_channel - i,
        {
            track_info.push(TrackInfo::new());
            i += 1;
        }
        let mut keyboard_state: Vec<micromap::Set<u8, 8>> = Vec::new();
        let mut k: usize = 0;
        while k < KEYBOARD_KEYS
            invariant
                k <= KEYBOARD_KEYS,
                keyboard_state@.len() == k,
                forall|j: int| 0 <= j < k ==> #[trigger] set_slots(keyboard_state@[j]) == Seq::<u8>::empty(),
            decreases KEYBOARD_KEYS - k,
        {
            keyboard_state.push(key_set_new());
            k += 1;
        }
        let r = AppState {
            track_info,
            keyboard_state,
            percussion_state: [0; 6],
            title: String::new(),
            tempo: 60,
            logs: PlayingLog::new(),
            midi_config: MidiConfig { ignore_text, sysex_ignore: ignore_sysex },
            validation_conf: ValidationConf { ym2608 },
            ym2608,
            max_channel,
        };
        assert(r.percussion_state@ =~= seq![0u8, 0, 0, 0, 0, 0]);
        assert forall|j: int| 0 <= j < r.keyboard_state@.len() implies set_slots(
            #[trigger] r.keyboard_state@[j],
        ).no_duplicates() by {
            assert(set_slots(r.keyboard_state@[j]) == Seq::<u8>::empty());
        }
        r
    }
}


/// The slots of a key set after channel `ch` presses the key.
pub open spec fn slots_pressed(s: Seq<u8>, ch: u8) -> Seq<u8> {
    if s.contains(ch) {
        s
    } else {
        s.push(ch)
    }
}

/// The slots of a key set after channel `ch` releases the key.
pub open spec fn slots_released(s: Seq<u8>, ch: u8) -> Seq<u8> {
    if s.contains(ch) {
        swap_remove(s, slot_of(s, ch))
    } else {
        s
    }
}

/// The first slot of a key set that holds `k` is in the set and holds `k`.
proof fn lemma_slot_of(s: Seq<u8>, k: u8)
    requires
        s.contains(k),
    ensures
        0 <= slot_of(s, k) < s.len(),
        s[slot_of(s, k)] == k,
    decreases s.len(),
{
    if !(s.last() == k && !s.drop_last().contains(k)) {
        if s.drop_last().contains(k) {
            lemma_slot_of(s.drop_last(), k);
        } else {
            let i = choose|i: int| 0 <= i < s.len() && s[i] == k;
            if i < s.len() - 1 {
                assert(s.drop_last()[i] == k);
            }
        }
    }
}

/// Pressing keeps a key's channels free of repeats, and the key then
/// holds the channel.
pub proof fn lemma_pressed_holds(s: Seq<u8>, ch: u8)
    requires
        s.no_duplicates(),
    ensures
        slots_pressed(s, ch).no_duplicates(),
        slots_pressed(s, ch).contains(ch),
{
    if !s.contains(ch) {
        let t = s.push(ch);
        assert(t[s.len() as int] == ch);
        assert forall|i: int, j: int| 0 <= i < t.len() && 0 <= j < t.len() && i != j implies t[i]
            != t[j] by {
            if i < s.len() && j < s.len() {
                assert(t[i] == s[i] && t[j] == s[j]);
            } else if i < s.len() {
                assert(t[i] == s[i]);
            } else if j < s.len() {
                assert(t[j] == s[j]);
            }
        }
    }
}

/// Releasing keeps a key's channels free of repeats, and the key then no
/// longer holds the channel.
pub proof fn lemma_released_clears(s: Seq<u8>, ch: u8)
    requires
        s.no_duplicates(),
    ensures
        slots_released(s, ch).no_duplicates(),
        !slots_released(s, ch).contains(ch),
{
    if s.contains(ch) {
        lemma_slot_of(s, ch);
        let i = slot_of(s, ch);
        let n = s.len() as int;
        let r = swap_remove(s, i);
        assert(r.len() == n - 1);
        assert forall|j: int| 0 <= j < r.len() implies #[trigger] r[j] == (if j == i {
            s[n - 1]
        } else {
            s[j]
        }) by {}
        assert forall|a: int, b: int| 0 <= a < r.len() && 0 <= b < r.len() && a != b implies r[a]
            != r[b] by {
            let ia = if a == i { n - 1 } else { a };
            let ib = if b == i { n - 1 } else { b };
            assert(r[a] == s[ia] && r[b] == s[ib]);
        }
        if r.contains(ch) {
            let j = choose|j: int| 0 <= j < r.len() && r[j] == ch;
            let ij = if j == i { n - 1 } else { j };
            assert(s[ij] == s[i]);
        }
    }
}

/// A key pressed by a channel that did not hold it, then released by that
/// channel, holds the channels it held before, in their slots.
pub proof fn lemma_press_then_release(s: Seq<u8>, ch: u8)
    requires
        !s.contains(ch),
    ensures
        slots_released(slots_pressed(s, ch), ch) == s,
{
    let t = s.push(ch);
    assert(t.last() == ch);
    assert(t.drop_last() =~= s);
    assert(t.contains(ch)) by {
        assert(t[s.len() as int] == ch);
    }
    assert(slot_of(t, ch) == s.len());
    assert(swap_remove(t, s.len() as int) =~= s);
}

/// Whether a report can be applied without overflowing a key set or a
/// rhythm counter (the cases in which the monitor panics).
pub open spec fn event_fits(st: &AppState, ch: u8, ev: &ChannelEvent) -> bool {
    match ev {
        ChannelEvent::KeyEvent(note, vel) => ch < st.max_channel && *vel != 0 ==> {
            &&& (ch < 9 && on_keyboard(*note)) ==> (set_slots(st.keyboard_state@[*note - 24]).contains(ch)
                || set_slots(st.keyboard_state@[*note - 24]).len() < 8)
            &&& (ch >= 9 && rhythm_of_note(*note) is Some) ==> st.percussion_state@[rhythm_index(
                rhythm_of_note(*note)->0,
            ) as int] < 255
        },
        _ => true,
    }
}

/// The channel row after a report that sets one of its values.
pub open spec fn track_after(t: TrackView, ev: &ChannelEvent) -> TrackView {
    match ev {
        ChannelEvent::ProgramChange(name) => TrackView { inst: name@, ..t },
        ChannelEvent::KeyEvent(note, vel) => TrackView {
            key_state: if *vel == 0 {
                None
            } else {
                Some(*note)
            },
            ..t
        },
        ChannelEvent::Expression(e) => TrackView { expression: *e, ..t },
        ChannelEvent::PitchBend(lo, hi) => TrackView { pitch_bend: bend_of(*lo, *hi), ..t },
        ChannelEvent::PanPot(p) => TrackView { pan_pot: *p, ..t },
        _ => t,
    }
}

impl AppState {
    /// Applies a report of the sequencer about channel `ch`. Reports about
    /// channels beyond those shown change nothing. A key report updates the
    /// channel's key, and the keyboard for channels below 9 or the rhythm
    /// line for the others; a lit rhythm instrument is returned so that its
    /// light can be put out after `WAIT_TIME_FOR_RHYTHM` milliseconds.
    pub fn sequencer_event(&mut self, ch: u8, event: ChannelEvent) -> (r: (EventInfo, Option<Rhythm>))
        requires
            old(self).wf(),
            event_fits(old(self), ch, &event),
        ensures
            final(self).wf(),
            final(self).max_channel == old(self).max_channel,
            final(self).tempo == old(self).tempo,
            final(self).title@ == old(self).title@,
            final(self).logs == old(self).logs,
            final(self).ym2608 == old(self).ym2608,
            ch >= old(self).max_channel ==> {
                &&& r == (EventInfo::NoChange, None::<Rhythm>)
                &&& tracks_of(final(self).track_info@) == tracks_of(old(self).track_info@)
                &&& key_slots(final(self).keyboard_state@) == key_slots(old(self).keyboard_state@)
                &&& final(self).percussion_state@ == old(self).percussion_state@
            },
            ch < old(self).max_channel ==> match event {
                ChannelEvent::ResetAllControllers => {
                    &&& r == (EventInfo::ChInfo(ch, false), None::<Rhythm>)
                    &&& tracks_of(final(self).track_info@) == Seq::new(
                        old(self).track_info@.len(),
                        |i: int| track_reset(),
                    )
                    &&& key_slots(final(self).keyboard_state@) == key_slots(old(self).keyboard_state@)
                    &&& final(self).percussion_state@ == old(self).percussion_state@
                },
                ChannelEvent::KeyEvent(note, vel) => {
                    &&& tracks_of(final(self).track_info@) == tracks_of(old(self).track_info@).update(
                        ch as int,
                        track_after(old(self).track_info@[ch as int]@, &event),
                    )
                    &&& if ch < 9 {
                        &&& final(self).percussion_state@ == old(self).percussion_state@
                        &&& if on_keyboard(note) {
                            &&& r == (EventInfo::ChInfo(ch, true), None::<Rhythm>)
                            &&& (set_slots(final(self).keyboard_state@[note - 24]).contains(ch)
                                <==> vel != 0)
                            &&& key_slots(final(self).keyboard_state@) == key_slots(
                                old(self).keyboard_state@,
                            ).update(
                                note - 24,
                                if vel == 0 {
                                    slots_released(set_slots(old(self).keyboard_state@[note - 24]), ch)
                                } else {
                                    slots_pressed(set_slots(old(self).keyboard_state@[note - 24]), ch)
                                },
                            )
                        } else {
                            &&& r == (EventInfo::ChInfo(ch, false), None::<Rhythm>)
                            &&& key_slots(final(self).keyboard_state@) == key_slots(
                                old(self).keyboard_state@,
                            )
                        }
                    } else {
                        &&& key_slots(final(self).keyboard_state@) == key_slots(old(self).keyboard_state@)
                        &&& if vel != 0 && rhythm_of_note(note) is Some {
                            let x = rhythm_of_note(note)->0;
                            &&& r == (EventInfo::ChInfo(ch, true), Some(x))
                            &&& final(self).percussion_state@ == old(self).percussion_state@.update(
                                rhythm_index(x) as int,
                                (old(self).percussion_state@[rhythm_index(x) as int] + 1) as u8,
                            )
                        } else {
                            &&& r == (EventInfo::ChInfo(ch, false), None::<Rhythm>)
                            &&& final(self).percussion_state@ == old(self).percussion_state@
                        }
                    }
                },
                _ => {
                    &&& r == (EventInfo::ChInfo(ch, false), None::<Rhythm>)
                    &&& tracks_of(final(self).track_info@) == tracks_of(old(self).track_info@).update(
                        ch as int,
                        track_after(old(self).track_info@[ch as int]@, &event),
                    )
                    &&& key_slots(final(self).keyboard_state@) == key_slots(old(self).keyboard_state@)
                    &&& final(self).percussion_state@ == old(self).percussion_state@
                },
            },
    {
        if ch >= self.max_channel {
            return (EventInfo::NoChange, None);
        }
        let ghost old_tracks = tracks_of(self.track_info@);
        let ghost old_keys = key_slots(self.keyboard_state@);
        let c = ch as usize;
        let mut is_update_keyboard = false;
        let mut lit: Option<Rhythm> = None;
        match event {
            ChannelEvent::ProgramChange(name) => {
                self.track_info[c].set_inst(name);
            },
            ChannelEvent::KeyEvent(note, vel) => {
                self.track_info[c].set_key_state(
                    if vel == 0 {
                        None
                    } else {
                        Some(note)
                    },
                );
                if ch < 9 {
                    if 24 <= note && note < 96 {
                        let k = (note - 24) as usize;
                        if vel == 0 {
                            key_set_remove(&mut self.keyboard_state[k], ch);
                        } else {
                            key_set_insert(&mut self.keyboard_state[k], ch);
                        }
                        proof {
                            let s0 = set_slots(old(self).keyboard_state@[k as int]);
                            assert(s0.no_duplicates());
                            lemma_pressed_holds(s0, ch);
                            lemma_released_clears(s0, ch);
                            assert forall|j: int| 0 <= j < self.keyboard_state@.len() implies set_slots(
                                #[trigger] self.keyboard_state@[j],
                            ).no_duplicates() by {
                                if j != k {
                                    assert(self.keyboard_state@[j] == old(self).keyboard_state@[j]);
                                }
                            }
                        }
                        is_update_keyboard = true;
                    }
                } else {
                    if let Ok(r) = Rhythm::try_from(note) {
                        if vel != 0 {
                            let i = r.index();
                            let count = self.percussion_state[i];
                            self.percussion_state[i] = count + 1;
                            is_update_keyboard = true;
                            lit = Some(r);
                        }
                    }
                }
            },
            ChannelEvent::Expression(e) => {
                self.track_info[c].set_expression(e);
            },
            ChannelEvent::PitchBend(lo, hi) => {
                let v = (lo as i32) | ((hi as i32) << 8);
                assert(v == lo + hi * 256) by (bit_vector)
                    requires
                        v == (lo as i32) | ((hi as i32) << 8),
                ;
                self.track_info[c].set_pitch_bend(v - 8192);
            },
            ChannelEvent::PanPot(p) => {
                self.track_info[c].set_pan_pot(p);
            },
            ChannelEvent::ResetAllControllers => {
                let mut t: usize = 0;
                while t < self.track_info.len()
                    invariant
                        t <= self.track_info@.len(),
                        self.track_info@.len() == old_tracks.len(),
                        self.max_channel == old(self).max_channel,
                        self.keyboard_state@ == old(self).keyboard_state@,
                        self.percussion_state == old(self).percussion_state,
                        self.logs == old(self).logs,
                        self.tempo == old(self).tempo,
                        self.title@ == old(self).title@,
                        self.ym2608 == old(self).ym2608,
                        forall|i: int| 0 <= i < t ==> #[trigger] self.track_info@[i]@ == track_reset(),
                    decreases self.track_info@.len() - t,
                {
                    self.track_info[t].clear();
                    t += 1;
                }
            },
            ChannelEvent::Other => {},
        }
        (EventInfo::ChInfo(ch, is_update_keyboard), lit)
    }
}


impl AppState {
    /// Whether the report `event` about channel `ch` can be applied: a key
    /// set has room for a new channel and a rhythm counter is below its top.
    pub fn can_apply(&self, ch: u8, event: &ChannelEvent) -> (r: bool)
        requires
            self.wf(),
        ensures
            r == event_fits(self, ch, event),
    {
        match event {
            ChannelEvent::KeyEvent(note, vel) => {
                if ch < self.max_channel && *vel != 0 {
                    if ch < 9 && 24 <= *note && *note < 96 {
                        let k = (*note - 24) as usize;
                        let keys = &self.keyboard_state[k];
                        if !(key_set_contains(keys, ch) || key_set_len(keys) < 8) {
                            return false;
                        }
                    }
                    if ch >= 9 {
                        if let Ok(r) = Rhythm::try_from(*note) {
                            if self.percussion_state[r.index()] == 255 {
                                return false;
                            }
                        }
                    }
                    true
                } else {
                    true
                }
            },
            _ => true,
        }
    }

    /// The channels that hold key `key` of the keyboard down, in the order
    /// of its slots.
    pub fn key_channels(&self, key: usize) -> (r: Vec<u8>)
        requires
            key < self.keyboard_state@.len(),
        ensures
            r@ == set_slots(self.keyboard_state@[key as int]),
    {
        key_set_items(&self.keyboard_state[key])
    }
}

impl AppState {
    /// Puts out one light of rhythm instrument `r` (at position `r` of the
    /// rhythm line), never below zero.
    pub fn rhythm_note_off(&mut self, r: u8)
        requires
            r < 6,
        ensures
            final(self).percussion_state@ == old(self).percussion_state@.update(
                r as int,
                if old(self).percussion_state@[r as int] > 0 {
                    (old(self).percussion_state@[r as int] - 1) as u8
                } else {
                    0
                },
            ),
            final(self).track_info@ == old(self).track_info@,
            final(self).keyboard_state@ == old(self).keyboard_state@,
            final(self).tempo == old(self).tempo,
            final(self).title@ == old(self).title@,
            final(self).logs == old(self).logs,
            final(self).max_channel == old(self).max_channel,
            final(self).ym2608 == old(self).ym2608,
    {
        let i = r as usize;
        let count = self.percussion_state[i];
        self.percussion_state[i] = count.saturating_sub(1);
        assert(self.percussion_state@ =~= old(self).percussion_state@.update(
            r as int,
            if old(self).percussion_state@[r as int] > 0 {
                (old(self).percussion_state@[r as int] - 1) as u8
            } else {
                0
            },
        ));
    }

    /// Takes note of what changed on the screen: a tempo report sets the tempo.
    pub fn note_event(&mut self, e: EventInfo)
        ensures
            e matches EventInfo::Tempo(t) ==> final(self).tempo == t,
            !(e is Tempo) ==> final(self).tempo == old(self).tempo,
            final(self).track_info@ == old(self).track_info@,
            final(self).keyboard_state@ == old(self).keyboard_state@,
            final(self).percussion_state == old(self).percussion_state,
            final(self).title@ == old(self).title@,
            final(self).logs == old(self).logs,
            final(self).max_channel == old(self).max_channel,
            final(self).ym2608 == old(self).ym2608,
    {
        if let EventInfo::Tempo(t) = e {
            self.tempo = t;
        }
    }
}

/// The screen change of a tempo report: the tempo is the little-endian
/// word of the report's data.
pub fn tempo_event(data: &[u8]) -> (r: EventInfo)
    requires
        data@.len() >= 4,
    ensures
        r matches EventInfo::Tempo(t) && t as int == le_u32(data@[0], data@[1], data@[2], data@[3]),
{
    EventInfo::Tempo(u32_from_le(data))
}


/// What a message of the sequencer reports to the monitor.
#[derive(Debug)]
pub enum Report {
    /// A report about a channel.
    Channel(u8, ChannelEvent),
    /// A tempo report, with its data.
    Tempo(Vec<u8>),
    /// Nothing to show.
    Nothing,
}

/// What the message `msg` reports: a key event with its note and velocity,
/// an expression with its value, a program change with its name, a tempo
/// with its data; the end of play reports nothing; any other kind is a
/// report about its channel that changes nothing shown.
pub fn report_of(msg: &SequenceMsg) -> (r: Report)
    requires
        text_readable(msg@),
    ensures
        ({
            let d = msg@.data->0;
            let ch = msg.channel;
            match msg.sq_event {
                SequenceEventFlag::KeyEvent => r matches Report::Channel(c, ChannelEvent::KeyEvent(n, v))
                    && c == ch && n == d[0] && v == d[1],
                SequenceEventFlag::Expression => r matches Report::Channel(c, ChannelEvent::Expression(x))
                    && c == ch && x == d[0],
                SequenceEventFlag::ProgramChange => r matches Report::Channel(
                    c,
                    ChannelEvent::ProgramChange(name),
                ) && c == ch && name@ == cvt_text(d),
                SequenceEventFlag::Tempo => r matches Report::Tempo(t) && t@ == d,
                SequenceEventFlag::End => r is Nothing,
                _ => r matches Report::Channel(c, ChannelEvent::Other) && c == ch,
            }
        }),
{
    let data = msg.data.as_ref().unwrap();
    let ch = msg.channel;
    match msg.sq_event {
        SequenceEventFlag::KeyEvent => Report::Channel(ch, ChannelEvent::KeyEvent(data[0], data[1])),
        SequenceEventFlag::Expression => Report::Channel(ch, ChannelEvent::Expression(data[0])),
        SequenceEventFlag::ProgramChange => Report::Channel(
            ch,
            ChannelEvent::ProgramChange(cvt_string(data.as_slice())),
        ),
        SequenceEventFlag::Tempo => Report::Tempo(vstd::slice::slice_to_vec(data.as_slice())),
        SequenceEventFlag::End => Report::Nothing,
        _ => Report::Channel(ch, ChannelEvent::Other),
    }
}

} // verus!
