//! What the monitor shows of each channel, and the log of received messages.
use vstd::prelude::*;

use std::collections::VecDeque;

use crate::text::{decimal, pad_right, push_decimal_left, push_str};

verus! {

/// The pan value of the centre.
pub const PANPOT_CENTER: u8 = 64;

/// The pitch bend value of no bend.
pub const PITCHBEND_CENTER: i32 = 0;

/// The state of one channel as the sequencer reports it.
#[derive(Debug)]
pub struct TrackInfo {
    pub inst: String,
    pub key_state: Option<u8>,
    pub pitch_bend: i32,
    pub expression: u8,
    pub pan_pot: u8,
}

/// The mathematical value of a `TrackInfo`.
pub struct TrackView {
    pub inst: Seq<char>,
    pub key_state: Option<u8>,
    pub pitch_bend: i32,
    pub expression: u8,
    pub pan_pot: u8,
}

impl View for TrackInfo {
    type V = TrackView;

    open spec fn view(&self) -> TrackView {
        TrackView {
            inst: self.inst@,
            key_state: self.key_state,
            pitch_bend: self.pitch_bend,
            expression: self.expression,
            pan_pot: self.pan_pot,
        }
    }
}

/// A channel before the sequencer has said anything of it: no instrument
/// name, no key, no bend, full expression, pan in the centre.
pub open spec fn track_reset() -> TrackView {
    TrackView { inst: seq![], key_state: None, pitch_bend: 0, expression: 127, pan_pot: 64 }
}

/// How the key state of a channel is shown.
pub open spec fn key_state_text(k: Option<u8>) -> Seq<char> {
    match k {
        Some(n) => "Key On  "@ + pad_right(decimal(n as nat), 3),
        None => "Key Off    "@,
    }
}

/// Where a pan value points: "L" below 44, "R" above 85, "C" between.
pub open spec fn pan_text(p: u8) -> Seq<char> {
    if p < 86 && p > 43 {
        "C"@
    } else if p < 86 {
        "L"@
    } else if p > 43 {
        "R"@
    } else {
        " "@
    }
}

impl Default for TrackInfo {
    fn default() -> (r: TrackInfo)
        ensures
            r@ == track_reset(),
    {
        TrackInfo {
            inst: String::new(),
            key_state: None,
            pitch_bend: PITCHBEND_CENTER,
            expression: 127,
            pan_pot: PANPOT_CENTER,
        }
    }
}

impl TrackInfo {
    /// A channel before the sequencer has said anything of it.
    pub fn new() -> (r: TrackInfo)
        ensures
            r@ == track_reset(),
    {
        TrackInfo {
            inst: String::new(),
            key_state: None,
            pitch_bend: PITCHBEND_CENTER,
            expression: 127,
            pan_pot: PANPOT_CENTER,
        }
    }

    /// The instrument name.
    pub fn get_inst(&self) -> (r: &str)
        ensures
            r@ == self.inst@,
    {
        self.inst.as_str()
    }

    /// The key state as shown: "Key On  " and the note left-aligned in three
    /// columns, or "Key Off    ".
    pub fn get_key_state(&self) -> (r: String)
        ensures
            r@ == key_state_text(self.key_state),
    {
        let mut s = String::new();
        match self.key_state {
            Some(n) => {
                push_str(&mut s, "Key On  ");
                push_decimal_left(&mut s, n as u64, 3);
            },
            None => {
                push_str(&mut s, "Key Off    ");
            },
        }
        assert(s@ =~= key_state_text(self.key_state));
        s
    }

    /// The pitch bend.
    pub fn get_pitch_bend(&self) -> (r: i32)
        ensures
            r == self.pitch_bend,
    {
        self.pitch_bend
    }

    /// The expression.
    pub fn get_expression(&self) -> (r: u8)
        ensures
            r == self.expression,
    {
        self.expression
    }

    /// The pan value.
    pub fn get_pan_pot(&self) -> (r: u8)
        ensures
            r == self.pan_pot,
    {
        self.pan_pot
    }

    /// Where the pan points.
    pub fn get_pan_pot_str(&self) -> (r: &'static str)
        ensures
            r@ == pan_text(self.pan_pot),
    {
        let l = self.pan_pot < 86;
        let r = self.pan_pot > 43;
        if l && r {
            "C"
        } else if l {
            "L"
        } else if r {
            "R"
        } else {
            " "
        }
    }

    /// Sets the instrument name.
    pub fn set_inst(&mut self, inst: String)
        ensures
            final(self)@ == (TrackView { inst: inst@, ..old(self)@ }),
    {
        self.inst = inst;
    }

    /// Sets the key held, or none.
    pub fn set_key_state(&mut self, data: Option<u8>)
        ensures
            final(self)@ == (TrackView { key_state: data, ..old(self)@ }),
    {
        self.key_state = data;
    }

    /// Sets the expression.
    pub fn set_expression(&mut self, expression: u8)
        ensures
            final(self)@ == (TrackView { expression, ..old(self)@ }),
    {
        self.expression = expression;
    }

    /// Sets the pitch bend.
    pub fn set_pitch_bend(&mut self, bend: i32)
        ensures
            final(self)@ == (TrackView { pitch_bend: bend, ..old(self)@ }),
    {
        self.pitch_bend = bend;
    }

    /// Sets the pan value.
    pub fn set_pan_pot(&mut self, pan_pot: u8)
        ensures
            final(self)@ == (TrackView { pan_pot, ..old(self)@ }),
    {
        self.pan_pot = pan_pot;
    }

    /// Forgets everything the sequencer said of the channel.
    pub fn clear(&mut self)
        ensures
            final(self)@ == track_reset(),
    {
        self.inst = String::new();
        self.key_state = None;
        self.pitch_bend = PITCHBEND_CENTER;
        self.expression = 127;
        self.pan_pot = PANPOT_CENTER;
    }
}

/// One received message in the log, with its number.
#[derive(Debug)]
pub struct LogItem {
    pub id: u64,
    pub msg: String,
}

impl LogItem {
    /// The item numbered `id` holding `msg`.
    pub fn new(id: u64, msg: String) -> (r: LogItem)
        ensures
            r.id == id,
            r.msg@ == msg@,
    {
        LogItem { id, msg }
    }

    /// The number of the message.
    pub fn get_id(&self) -> (r: u64)
        ensures
            r == self.id,
    {
        self.id
    }

    /// The message.
    pub fn get_msg(&self) -> (r: &str)
        ensures
            r@ == self.msg@,
    {
        self.msg.as_str()
    }
}

/// The last messages received, newest first.
#[derive(Debug)]
pub struct PlayingLog {
    pub current_id: u64,
    pub logs: VecDeque<LogItem>,
}

/// The most messages that the log keeps.
pub const MAX_LOG_SIZE: usize = 10;

impl PlayingLog {
    /// The log holds at most `MAX_LOG_SIZE` items, numbered one below the
    /// other from `current_id - 1` down.
    pub open spec fn wf(&self) -> bool {
        &&& self.logs@.len() <= MAX_LOG_SIZE
        &&& self.logs@.len() <= self.current_id
        &&& forall|i: int| 0 <= i < self.logs@.len() ==> #[trigger] self.logs@[i].id == self.current_id - 1 - i
    }

    /// An empty log whose next message is numbered 0.
    pub fn new() -> (r: PlayingLog)
        ensures
            r.wf(),
            r.current_id == 0,
            r.logs@.len() == 0,
            log_items(r) == items_after(Seq::empty()),
    {
        let r = PlayingLog { current_id: 0, logs: VecDeque::new() };
        assert(log_items(r) =~= items_after(Seq::empty()));
        r
    }

    /// Adds `msg` as the newest item, dropping the oldest ones so that at
    /// most `MAX_LOG_SIZE` stay.
    pub fn add(&mut self, msg: String)
        requires
            old(self).current_id < u64::MAX,
        ensures
            final(self).current_id == old(self).current_id + 1,
            final(self).logs@.len() == if old(self).logs@.len() < MAX_LOG_SIZE {
                old(self).logs@.len() + 1
            } else {
                MAX_LOG_SIZE as nat
            },
            final(self).logs@[0].id == old(self).current_id,
            final(self).logs@[0].msg@ == msg@,
            forall|i: int|
                1 <= i < final(self).logs@.len() ==> #[trigger] final(self).logs@[i] == old(self).logs@[i
                    - 1],
            log_items(*final(self)) == add_items(log_items(*old(self)), old(self).current_id, msg@),
    {
        let ghost before = self.logs@;
        while self.logs.len() >= MAX_LOG_SIZE
            invariant
                self.current_id == old(self).current_id,
                old(self).current_id < u64::MAX,
                before == old(self).logs@,
                self.logs@ == before.take(self.logs@.len() as int),
                self.logs@.len() <= before.len(),
                before.len() >= MAX_LOG_SIZE ==> self.logs@.len() >= MAX_LOG_SIZE - 1,
                before.len() < MAX_LOG_SIZE ==> self.logs@ == before,
            decreases self.logs@.len(),
        {
            self.logs.pop_back();
            assert(self.logs@ =~= before.take(self.logs@.len() as int));
        }
        let ghost m = msg@;
        let ghost id = self.current_id;
        self.logs.push_front(LogItem::new(self.current_id, msg));
        self.current_id += 1;
        proof {
            let old_items = log_items(*old(self));
            let kept = if old_items.len() < MAX_LOG_SIZE {
                old_items.len()
            } else {
                (MAX_LOG_SIZE - 1) as nat
            };
            assert(log_items(*self) =~= seq![(id, m)] + old_items.take(kept as int)) by {
                assert forall|i: int| 1 <= i < self.logs@.len() implies log_items(*self)[i]
                    == old_items[i - 1] by {
                    assert(self.logs@[i] == old(self).logs@[i - 1]);
                }
            }
        }
    }

    /// The items, newest first.
    pub fn get_logs(&self) -> (r: &VecDeque<LogItem>)
        ensures
            r@ == self.logs@,
    {
        &self.logs
    }
}

/// Adding a message keeps the log well formed: at most `MAX_LOG_SIZE` items,
/// numbered one below the other from the newest down.
pub proof fn lemma_add_keeps_wf(before: PlayingLog, after: PlayingLog, msg: Seq<char>)
    requires
        before.wf(),
        before.current_id < u64::MAX,
        after.current_id == before.current_id + 1,
        after.logs@.len() == if before.logs@.len() < MAX_LOG_SIZE {
            before.logs@.len() + 1
        } else {
            MAX_LOG_SIZE as nat
        },
        after.logs@[0].id == before.current_id,
        forall|i: int| 1 <= i < after.logs@.len() ==> #[trigger] after.logs@[i] == before.logs@[i - 1],
    ensures
        after.wf(),
{
    assert forall|i: int| 0 <= i < after.logs@.len() implies #[trigger] after.logs@[i].id
        == after.current_id - 1 - i by {
        if i >= 1 {
            assert(after.logs@[i] == before.logs@[i - 1]);
        }
    }
}


/// The items of a log as (number, message), newest first.
pub open spec fn log_items(l: PlayingLog) -> Seq<(u64, Seq<char>)> {
    l.logs@.map_values(|it: LogItem| (it.id, it.msg@))
}

/// The log after the messages `msgs` were added, in order, to an empty
/// one: the newest `MAX_LOG_SIZE` of them, newest first, each numbered by
/// its place among all the messages.
pub open spec fn newest_first(msgs: Seq<Seq<char>>) -> Seq<(u64, Seq<char>)> {
    let k = msgs.len();
    let n = if k < MAX_LOG_SIZE {
        k
    } else {
        MAX_LOG_SIZE as nat
    };
    Seq::new(n, |j: int| ((k - 1 - j) as u64, msgs[k - 1 - j]))
}

/// The items after adding message `m`, numbered `id`, in front of
/// `items`: the new item first, then as many of the old ones, in order, as
/// leave `MAX_LOG_SIZE` items at most.
pub open spec fn add_items(items: Seq<(u64, Seq<char>)>, id: u64, m: Seq<char>) -> Seq<
    (u64, Seq<char>),
> {
    seq![(id, m)] + items.take(
        if items.len() < MAX_LOG_SIZE {
            items.len() as int
        } else {
            MAX_LOG_SIZE - 1
        },
    )
}

/// The items of a log made by `PlayingLog::new` after `add` of each of
/// `msgs` in turn: `new` gives the empty items and numbers the next
/// message 0, and each `add` (by its contract) gives `add_items` of the
/// items before, numbered by the messages added so far.
pub open spec fn items_after(msgs: Seq<Seq<char>>) -> Seq<(u64, Seq<char>)>
    decreases msgs.len(),
{
    if msgs.len() == 0 {
        seq![]
    } else {
        add_items(items_after(msgs.drop_last()), (msgs.len() - 1) as u64, msgs.last())
    }
}

/// After `PlayingLog::new` and `add` of any number of messages, the log
/// holds the newest `MAX_LOG_SIZE` of them (all of them when fewer), newest
/// first, the message added `j`-th from last numbered with its place among
/// all the messages.
pub proof fn lemma_log_after_adds(msgs: Seq<Seq<char>>)
    ensures
        items_after(msgs) == newest_first(msgs),
    decreases msgs.len(),
{
    if msgs.len() > 0 {
        let k = msgs.len();
        let init = msgs.drop_last();
        lemma_log_after_adds(init);
        let a = items_after(msgs);
        let b = newest_first(msgs);
        assert(a.len() == b.len());
        assert forall|j: int| 0 <= j < a.len() implies a[j] == b[j] by {
            if j > 0 {
                assert(a[j] == newest_first(init)[j - 1]);
                assert(init[k - 1 - j] == msgs[k - 1 - j]);
            }
        }
        assert(a =~= b);
    } else {
        assert(newest_first(msgs) =~= Seq::<(u64, Seq<char>)>::empty());
    }
}


/// The log through a history of adds: where `states[0]` is a new log and
/// each next state is the one before after `add` of the next message (as
/// `add`'s contract relates them), the last state holds the newest
/// `MAX_LOG_SIZE` messages, newest first, numbered by their places, and
/// numbers the next message by the count of messages added.
pub proof fn lemma_log_history(states: Seq<PlayingLog>, msgs: Seq<Seq<char>>)
    requires
        states.len() == msgs.len() + 1,
        states[0].current_id == 0,
        log_items(states[0]) == Seq::<(u64, Seq<char>)>::empty(),
        forall|i: int|
            0 <= i < msgs.len() ==> (#[trigger] states[i + 1]).current_id == states[i].current_id + 1
                && log_items(states[i + 1]) == add_items(
                log_items(states[i]),
                states[i].current_id,
                msgs[i],
            ),
    ensures
        states.last().current_id == msgs.len(),
        log_items(states.last()) == newest_first(msgs),
{
    assert forall|i: int| 0 <= i <= msgs.len() implies states[i].current_id == i && log_items(
        #[trigger] states[i],
    ) == items_after(msgs.take(i)) by {
        lemma_history_prefix(states, msgs, i);
    }
    assert(msgs.take(msgs.len() as int) =~= msgs);
    lemma_log_after_adds(msgs);
}

proof fn lemma_history_prefix(states: Seq<PlayingLog>, msgs: Seq<Seq<char>>, i: int)
    requires
        states.len() == msgs.len() + 1,
        states[0].current_id == 0,
        log_items(states[0]) == Seq::<(u64, Seq<char>)>::empty(),
        forall|j: int|
            0 <= j < msgs.len() ==> (#[trigger] states[j + 1]).current_id == states[j].current_id + 1
                && log_items(states[j + 1]) == add_items(
                log_items(states[j]),
                states[j].current_id,
                msgs[j],
            ),
        0 <= i <= msgs.len(),
    ensures
        states[i].current_id == i,
        log_items(states[i]) == items_after(msgs.take(i)),
    decreases i,
{
    if i == 0 {
        assert(msgs.take(0) =~= Seq::<Seq<char>>::empty());
    } else {
        lemma_history_prefix(states, msgs, i - 1);
        assert(states[(i - 1) + 1] == states[i]);
        assert(msgs.take(i).drop_last() =~= msgs.take(i - 1));
        assert(msgs.take(i).last() == msgs[i - 1]);
    }
}

} // verus!
