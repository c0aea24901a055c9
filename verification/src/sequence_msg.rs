//! Messages from the sequencer: what it plays, as it plays it.
use vstd::prelude::*;

use crate::text::{decimal, pad_left, push_decimal, push_decimal_right, push_str, string_from_utf8};

verus! {

/// The kind of a sequencer message (low nibble of its first byte).
#[derive(Debug, Clone, Copy, PartialEq, Eq, Structural)]
pub enum SequenceEventFlag {
    KeyEvent,
    Tempo,
    End,
    Nop,
    Param,
    ProgramChange,
    Expression,
    /// Any other number; the set of kinds grows with the sequencer.
    Other,
}

/// The kind that a number stands for.
pub open spec fn event_flag_of(v: u8) -> SequenceEventFlag {
    if v == 0 {
        SequenceEventFlag::KeyEvent
    } else if v == 1 {
        SequenceEventFlag::Tempo
    } else if v == 2 {
        SequenceEventFlag::End
    } else if v == 3 {
        SequenceEventFlag::Nop
    } else if v == 4 {
        SequenceEventFlag::Param
    } else if v == 5 {
        SequenceEventFlag::ProgramChange
    } else if v == 6 {
        SequenceEventFlag::Expression
    } else {
        SequenceEventFlag::Other
    }
}

/// The number of a kind; `Other` has `0xff`.
pub open spec fn event_flag_code(f: SequenceEventFlag) -> u8 {
    match f {
        SequenceEventFlag::KeyEvent => 0,
        SequenceEventFlag::Tempo => 1,
        SequenceEventFlag::End => 2,
        SequenceEventFlag::Nop => 3,
        SequenceEventFlag::Param => 4,
        SequenceEventFlag::ProgramChange => 5,
        SequenceEventFlag::Expression => 6,
        SequenceEventFlag::Other => 0xff,
    }
}

impl SequenceEventFlag {
    /// The kind that `value` stands for.
    pub fn from(value: u8) -> (r: SequenceEventFlag)
        ensures
            r == event_flag_of(value),
    {
        match value {
            0 => SequenceEventFlag::KeyEvent,
            1 => SequenceEventFlag::Tempo,
            2 => SequenceEventFlag::End,
            3 => SequenceEventFlag::Nop,
            4 => SequenceEventFlag::Param,
            5 => SequenceEventFlag::ProgramChange,
            6 => SequenceEventFlag::Expression,
            _ => SequenceEventFlag::Other,
        }
    }

    /// The number of this kind.
    pub fn into_u8(self) -> (r: u8)
        ensures
            r == event_flag_code(self),
    {
        match self {
            SequenceEventFlag::KeyEvent => 0,
            SequenceEventFlag::Tempo => 1,
            SequenceEventFlag::End => 2,
            SequenceEventFlag::Nop => 3,
            SequenceEventFlag::Param => 4,
            SequenceEventFlag::ProgramChange => 5,
            SequenceEventFlag::Expression => 6,
            _ => 0xff,
        }
    }
}

/// Every kind but `Other` is read back from its number, and a number
/// names a kind whose number it is exactly when it is at most 6.
pub proof fn lemma_event_flag_roundtrip(f: SequenceEventFlag, v: u8)
    ensures
        f != SequenceEventFlag::Other ==> event_flag_of(event_flag_code(f)) == f,
        event_flag_code(event_flag_of(v)) == if v <= 6 {
            v
        } else {
            0xff
        },
{
}

/// The operator parameter that a parameter-change message sets.
#[derive(Debug, Clone, Copy, PartialEq, Eq, Structural)]
pub enum ParamChangeFlag {
    Slot,
    DtMul,
    Tl,
    KsAr,
    Dr,
    Sr,
    SlRr,
    FbCon,
    Other,
}

/// The parameter that a number stands for.
pub open spec fn param_flag_of(v: u8) -> ParamChangeFlag {
    if v == 0 {
        ParamChangeFlag::Slot
    } else if v == 1 {
        ParamChangeFlag::DtMul
    } else if v == 2 {
        ParamChangeFlag::Tl
    } else if v == 3 {
        ParamChangeFlag::KsAr
    } else if v == 4 {
        ParamChangeFlag::Dr
    } else if v == 5 {
        ParamChangeFlag::Sr
    } else if v == 6 {
        ParamChangeFlag::SlRr
    } else if v == 7 {
        ParamChangeFlag::FbCon
    } else {
        ParamChangeFlag::Other
    }
}

/// The number of a parameter; `Other` has `0xff`.
pub open spec fn param_flag_code(f: ParamChangeFlag) -> u8 {
    match f {
        ParamChangeFlag::Slot => 0,
        ParamChangeFlag::DtMul => 1,
        ParamChangeFlag::Tl => 2,
        ParamChangeFlag::KsAr => 3,
        ParamChangeFlag::Dr => 4,
        ParamChangeFlag::Sr => 5,
        ParamChangeFlag::SlRr => 6,
        ParamChangeFlag::FbCon => 7,
        ParamChangeFlag::Other => 0xff,
    }
}

/// The display name of a parameter.
pub open spec fn param_flag_name(f: ParamChangeFlag) -> Seq<char> {
    match f {
        ParamChangeFlag::Slot => "slot"@,
        ParamChangeFlag::DtMul => "Detune/Multiple"@,
        ParamChangeFlag::Tl => "TotalLevel"@,
        ParamChangeFlag::KsAr => "KeyScale/AttackRate"@,
        ParamChangeFlag::Dr => "DecayRate"@,
        ParamChangeFlag::Sr => "SustainRate"@,
        ParamChangeFlag::SlRr => "SustainLevel/ReleaseRate"@,
        ParamChangeFlag::FbCon => "FeedBack/Connection"@,
        ParamChangeFlag::Other => "other"@,
    }
}

impl ParamChangeFlag {
    /// The parameter that `value` stands for.
    pub fn from(value: u8) -> (r: ParamChangeFlag)
        ensures
            r == param_flag_of(value),
    {
        match value {
            0 => ParamChangeFlag::Slot,
            1 => ParamChangeFlag::DtMul,
            2 => ParamChangeFlag::Tl,
            3 => ParamChangeFlag::KsAr,
            4 => ParamChangeFlag::Dr,
            5 => ParamChangeFlag::Sr,
            6 => ParamChangeFlag::SlRr,
            7 => ParamChangeFlag::FbCon,
            _ => ParamChangeFlag::Other,
        }
    }

    /// The number of this parameter.
    pub fn into_u8(self) -> (r: u8)
        ensures
            r == param_flag_code(self),
    {
        match self {
            ParamChangeFlag::Slot => 0,
            ParamChangeFlag::DtMul => 1,
            ParamChangeFlag::Tl => 2,
            ParamChangeFlag::KsAr => 3,
            ParamChangeFlag::Dr => 4,
            ParamChangeFlag::Sr => 5,
            ParamChangeFlag::SlRr => 6,
            ParamChangeFlag::FbCon => 7,
            _ => 0xff,
        }
    }

    /// The display name of this parameter.
    pub fn name(&self) -> (r: &'static str)
        ensures
            r@ == param_flag_name(*self),
    {
        match self {
            ParamChangeFlag::Slot => "slot",
            ParamChangeFlag::DtMul => "Detune/Multiple",
            ParamChangeFlag::Tl => "TotalLevel",
            ParamChangeFlag::KsAr => "KeyScale/AttackRate",
            ParamChangeFlag::Dr => "DecayRate",
            ParamChangeFlag::Sr => "SustainRate",
            ParamChangeFlag::SlRr => "SustainLevel/ReleaseRate",
            ParamChangeFlag::FbCon => "FeedBack/Connection",
            ParamChangeFlag::Other => "other",
        }
    }
}

/// Every parameter but `Other` is read back from its number, and a number
/// names a parameter whose number it is exactly when it is at most 7.
pub proof fn lemma_param_flag_roundtrip(f: ParamChangeFlag, v: u8)
    ensures
        f != ParamChangeFlag::Other ==> param_flag_of(param_flag_code(f)) == f,
        param_flag_code(param_flag_of(v)) == if v <= 7 {
            v
        } else {
            0xff
        },
{
}

/// A message from the sequencer.
pub struct SequenceMsg {
    pub channel: u8,
    pub sq_event: SequenceEventFlag,
    pub param_change: Option<ParamChangeFlag>,
    pub data: Option<Vec<u8>>,
}

/// The mathematical value of a `SequenceMsg`.
pub struct MsgView {
    pub channel: u8,
    pub sq_event: SequenceEventFlag,
    pub param_change: Option<ParamChangeFlag>,
    pub data: Option<Seq<u8>>,
}

impl View for SequenceMsg {
    type V = MsgView;

    open spec fn view(&self) -> MsgView {
        MsgView {
            channel: self.channel,
            sq_event: self.sq_event,
            param_change: self.param_change,
            data: match self.data {
                Some(d) => Some(d@),
                None => None,
            },
        }
    }
}

/// Whether `SequenceMsg::from` can read `data`: a first byte, and a second
/// one for a parameter change.
pub open spec fn msg_readable(data: Seq<u8>) -> bool {
    data.len() >= 1 && (event_flag_of(data[0] & 0xf) == SequenceEventFlag::Param ==> data.len() >= 2)
}

/// The message that a payload holds: the high nibble of the first byte is
/// the channel, the low nibble the kind; a parameter change names the
/// parameter in the low nibble of the second byte and carries the rest,
/// every other kind carries all bytes after the first.
pub open spec fn msg_of(data: Seq<u8>) -> MsgView {
    let flag = event_flag_of(data[0] & 0xf);
    let ch = (data[0] >> 4) & 0xf;
    if flag == SequenceEventFlag::Param {
        MsgView {
            channel: ch,
            sq_event: SequenceEventFlag::Param,
            param_change: Some(param_flag_of(data[1] & 0xf)),
            data: Some(data.skip(2)),
        }
    } else {
        MsgView { channel: ch, sq_event: flag, param_change: None, data: Some(data.skip(1)) }
    }
}

fn copy_from(data: &[u8], start: usize) -> (r: Vec<u8>)
    requires
        start <= data@.len(),
    ensures
        r@ == data@.skip(start as int),
{
    let mut r = Vec::new();
    let mut i = start;
    while i < data.len()
        invariant
            start <= i <= data@.len(),
            r@ == data@.subrange(start as int, i as int),
        decreases data@.len() - i,
    {
        r.push(data[i]);
        i += 1;
        assert(r@ =~= data@.subrange(start as int, i as int));
    }
    assert(r@ =~= data@.skip(start as int));
    r
}

/// Whether `to_text` can read the data it shows.
pub open spec fn text_readable(m: MsgView) -> bool {
    m.data is Some && (m.sq_event == SequenceEventFlag::KeyEvent ==> m.data->0.len() >= 2) && (
    m.sq_event == SequenceEventFlag::Expression ==> m.data->0.len() >= 1)
}

/// How a message is shown in the log.
pub open spec fn msg_text(m: MsgView) -> Seq<char> {
    let d = m.data->0;
    let ch = decimal(m.channel as nat);
    if m.sq_event == SequenceEventFlag::KeyEvent {
        if d[1] == 0 {
            "Ch"@ + pad_left(ch, 2) + ": Key Off     "@ + decimal(d[0] as nat)
        } else {
            "Ch"@ + pad_left(ch, 2) + ": Key On      "@ + decimal(d[0] as nat)
        }
    } else if m.sq_event == SequenceEventFlag::Tempo {
        "Tempo"@
    } else if m.sq_event == SequenceEventFlag::End {
        "End"@
    } else if m.sq_event == SequenceEventFlag::Expression {
        "Ch"@ + ch + ": Expression     "@ + decimal(d[0] as nat)
    } else if m.sq_event == SequenceEventFlag::ProgramChange {
        "Ch"@ + ch + ": Program Change "@
    } else {
        seq![]
    }
}

impl SequenceMsg {
    /// The message that `data` holds.
    pub fn from(data: &[u8]) -> (r: SequenceMsg)
        requires
            msg_readable(data@),
        ensures
            r@ == msg_of(data@),
    {
        let event_flag = SequenceEventFlag::from(data[0] & 0xf);
        let ch = (data[0] >> 4) & 0xf;
        if event_flag == SequenceEventFlag::Param {
            Self::new_param_change(ch, ParamChangeFlag::from(data[1] & 0xf), copy_from(data, 2))
        } else {
            Self::new(ch, event_flag, Some(copy_from(data, 1)))
        }
    }

    /// A message of kind `event` on `channel` carrying `data`.
    pub fn new(channel: u8, event: SequenceEventFlag, data: Option<Vec<u8>>) -> (r: SequenceMsg)
        ensures
            r.channel == channel,
            r.sq_event == event,
            r.param_change is None,
            r.data == data,
    {
        SequenceMsg { channel, sq_event: event, param_change: None, data }
    }

    /// A parameter change on `channel` setting `param_change` to `data`.
    pub fn new_param_change(channel: u8, param_change: ParamChangeFlag, data: Vec<u8>) -> (r:
        SequenceMsg)
        ensures
            r.channel == channel,
            r.sq_event == SequenceEventFlag::Param,
            r.param_change == Some(param_change),
            r.data == Some(data),
    {
        SequenceMsg {
            channel,
            sq_event: SequenceEventFlag::Param,
            param_change: Some(param_change),
            data: Some(data),
        }
    }

    /// How the message is shown in the log.
    pub fn to_text(&self) -> (r: String)
        requires
            text_readable(self@),
        ensures
            r@ == msg_text(self@),
    {
        let data = self.data.as_ref().unwrap();
        let mut s = String::new();
        match self.sq_event {
            SequenceEventFlag::KeyEvent => {
                push_str(&mut s, "Ch");
                push_decimal_right(&mut s, self.channel as u64, 2);
                if data[1] == 0 {
                    push_str(&mut s, ": Key Off     ");
                } else {
                    push_str(&mut s, ": Key On      ");
                }
                push_decimal(&mut s, data[0] as u64);
            },
            SequenceEventFlag::Tempo => {
                push_str(&mut s, "Tempo");
            },
            SequenceEventFlag::End => {
                push_str(&mut s, "End");
            },
            SequenceEventFlag::Expression => {
                push_str(&mut s, "Ch");
                push_decimal(&mut s, self.channel as u64);
                push_str(&mut s, ": Expression     ");
                push_decimal(&mut s, data[0] as u64);
            },
            SequenceEventFlag::ProgramChange => {
                push_str(&mut s, "Ch");
                push_decimal(&mut s, self.channel as u64);
                push_str(&mut s, ": Program Change ");
            },
            _ => {},
        }
        assert(s@ =~= msg_text(self@));
        s
    }
}

/// The text of `buf` when it is valid UTF-8, else "unknown".
pub open spec fn cvt_text(buf: Seq<u8>) -> Seq<char> {
    if vstd::utf8::valid_utf8(buf) {
        vstd::utf8::decode_utf8(buf)
    } else {
        "unknown"@
    }
}

/// The text of `buf` when it is valid UTF-8, else "unknown".
pub fn cvt_string(buf: &[u8]) -> (r: String)
    ensures
        r@ == cvt_text(buf@),
{
    match string_from_utf8(vstd::slice::slice_to_vec(buf)) {
        Some(s) => s,
        None => String::from_str("unknown"),
    }
}

} // verus!
