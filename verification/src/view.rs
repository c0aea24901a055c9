//! What the monitor screen shows: rhythm names, keyboard colours, channel
//! labels and the lines of file suggestions.
use vstd::prelude::*;

use crate::keyset::{key_set_first, set_slots};
use crate::text::{byte_len, decimal, pad_left, push_decimal, push_decimal_right, push_str, text_bytes};

verus! {

/// The row of the channel table's first line.
pub const TABLE_TOP: u16 = 4;

/// The rhythm instruments of the YM2608.
#[derive(Debug, Clone, Copy, PartialEq, Eq, Structural)]
pub enum Rhythm {
    BD,
    SD,
    Top,
    HH,
    Tom,
    Rym,
}

/// The rhythm instrument at position `code` of the rhythm line.
pub open spec fn rhythm_at(code: nat) -> Rhythm {
    if code == 0 {
        Rhythm::BD
    } else if code == 1 {
        Rhythm::SD
    } else if code == 2 {
        Rhythm::Top
    } else if code == 3 {
        Rhythm::HH
    } else if code == 4 {
        Rhythm::Tom
    } else {
        Rhythm::Rym
    }
}

/// The position of a rhythm instrument on the rhythm line.
pub open spec fn rhythm_index(r: Rhythm) -> nat {
    match r {
        Rhythm::BD => 0,
        Rhythm::SD => 1,
        Rhythm::Top => 2,
        Rhythm::HH => 3,
        Rhythm::Tom => 4,
        Rhythm::Rym => 5,
    }
}

/// The name shown for a rhythm instrument.
pub open spec fn rhythm_name(r: Rhythm) -> Seq<char> {
    match r {
        Rhythm::BD => "BD"@,
        Rhythm::SD => "SD"@,
        Rhythm::Top => "TOP"@,
        Rhythm::HH => "HH"@,
        Rhythm::Tom => "TOM"@,
        Rhythm::Rym => "RYM"@,
    }
}

/// The rhythm instrument that a note number of the rhythm channel plays.
pub open spec fn rhythm_of_note(n: u8) -> Option<Rhythm> {
    if n == 40 {
        Some(Rhythm::Rym)
    } else if n == 47 {
        Some(Rhythm::Tom)
    } else if n == 42 {
        Some(Rhythm::HH)
    } else if n == 46 {
        Some(Rhythm::Top)
    } else if n == 38 {
        Some(Rhythm::SD)
    } else if n == 36 {
        Some(Rhythm::BD)
    } else {
        None
    }
}

impl Rhythm {
    /// The name of the instrument at position `code` of the rhythm line.
    pub fn cvt_name_by_name(code: usize) -> (r: String)
        requires
            code < 6,
        ensures
            r@ == rhythm_name(rhythm_at(code as nat)),
    {
        let rhythm = match code {
            0 => Rhythm::BD,
            1 => Rhythm::SD,
            2 => Rhythm::Top,
            3 => Rhythm::HH,
            4 => Rhythm::Tom,
            _ => Rhythm::Rym,
        };
        String::from_str(rhythm.name())
    }

    /// The name shown for this instrument.
    pub fn name(&self) -> (r: &'static str)
        ensures
            r@ == rhythm_name(*self),
    {
        match self {
            Rhythm::BD => "BD",
            Rhythm::SD => "SD",
            Rhythm::Top => "TOP",
            Rhythm::HH => "HH",
            Rhythm::Tom => "TOM",
            Rhythm::Rym => "RYM",
        }
    }

    /// The position of this instrument on the rhythm line.
    pub fn index(&self) -> (r: usize)
        ensures
            r == rhythm_index(*self),
    {
        match self {
            Rhythm::BD => 0,
            Rhythm::SD => 1,
            Rhythm::Top => 2,
            Rhythm::HH => 3,
            Rhythm::Tom => 4,
            Rhythm::Rym => 5,
        }
    }

    /// The instrument that note `value` of the rhythm channel plays.
    pub fn try_from(value: u8) -> (r: Result<Rhythm, &'static str>)
        ensures
            rhythm_of_note(value) matches Some(x) ==> r == Ok::<Rhythm, &'static str>(x),
            rhythm_of_note(value) is None ==> (r matches Err(m) && m@ == "Invalid Rhythm Code"@),
    {
        match value {
            40 => Ok(Rhythm::Rym),
            47 => Ok(Rhythm::Tom),
            42 => Ok(Rhythm::HH),
            46 => Ok(Rhythm::Top),
            38 => Ok(Rhythm::SD),
            36 => Ok(Rhythm::BD),
            _ => Err("Invalid Rhythm Code"),
        }
    }
}

/// Every instrument's note is read back as that instrument, and each sits
/// at its own position of the rhythm line.
pub proof fn lemma_rhythm_positions(r: Rhythm)
    ensures
        rhythm_index(r) < 6,
        rhythm_at(rhythm_index(r)) == r,
{
}

/// Whether key `n` of the keyboard (counted from a C) is a white key.
pub open spec fn natural_note(n: u8) -> bool {
    let m = n % 12;
    m == 0 || m == 2 || m == 4 || m == 5 || m == 7 || m == 9 || m == 11
}

/// Whether key `n` (counted from a C) is a white key.
pub fn is_natural_note(n: u8) -> (r: bool)
    ensures
        r == natural_note(n),
{
    let n = n % 12;
    n == 0 || n == 2 || n == 4 || n == 5 || n == 7 || n == 9 || n == 11
}

/// The colour of a key on the screen.
#[derive(Debug, Clone, Copy, PartialEq, Eq, Structural)]
pub enum KeyColor {
    /// The colour of a channel that holds the key down.
    Channel(u8),
    White,
    Black,
}

/// The colour of the upper half of key `n`: the channel in the first slot
/// of its set, else white or black as the key is.
pub open spec fn upper_color(slots: Seq<u8>, n: u8) -> KeyColor {
    if slots.len() > 0 {
        KeyColor::Channel(slots[0])
    } else if natural_note(n) {
        KeyColor::White
    } else {
        KeyColor::Black
    }
}

/// The colour of the lower half of key `n`: black keys do not reach it, so
/// it shows the upper colour of the nearest white key at or before `n`.
pub open spec fn lower_color(state: Seq<Seq<u8>>, n: nat) -> KeyColor
    decreases n,
{
    if n < state.len() && natural_note((n % 256) as u8) {
        upper_color(state[n as int], (n % 256) as u8)
    } else if n == 0 {
        KeyColor::White
    } else {
        lower_color(state, (n - 1) as nat)
    }
}

/// The lower half of a white key shows its own upper colour; the lower
/// half of a black key (which does not reach down) shows what the key
/// before it shows, whatever the black key's own set holds.
pub proof fn lemma_lower_colors(state: Seq<Seq<u8>>, n: nat)
    requires
        n < state.len(),
    ensures
        natural_note((n % 256) as u8) ==> lower_color(state, n) == upper_color(
            state[n as int],
            (n % 256) as u8,
        ),
        !natural_note((n % 256) as u8) && n > 0 ==> lower_color(state, n) == lower_color(
            state,
            (n - 1) as nat,
        ),
        natural_note((n % 256) as u8) ==> (state[n as int].len() == 0 <==> lower_color(state, n)
            == KeyColor::White) && (state[n as int].len() > 0 ==> lower_color(state, n)
            == KeyColor::Channel(state[n as int][0])),
{
}

/// The upper half of a key shows the first channel holding it, or white or
/// black as the key is when no channel holds it.
pub proof fn lemma_upper_colors(slots: Seq<u8>, n: u8)
    ensures
        slots.len() > 0 ==> upper_color(slots, n) == KeyColor::Channel(slots[0]),
        slots.len() == 0 && natural_note(n) ==> upper_color(slots, n) == KeyColor::White,
        slots.len() == 0 && !natural_note(n) ==> upper_color(slots, n) == KeyColor::Black,
        natural_note(n) <==> (n % 12 == 0 || n % 12 == 2 || n % 12 == 4 || n % 12 == 5 || n % 12 == 7
            || n % 12 == 9 || n % 12 == 11),
{
}

/// The slots of every key set.
pub open spec fn key_slots(state: Seq<micromap::Set<u8, 8>>) -> Seq<Seq<u8>> {
    state.map_values(|s: micromap::Set<u8, 8>| set_slots(s))
}

/// The colours of the upper and lower halves of each key of the keyboard.
pub fn keyboard_colors(state: &[micromap::Set<u8, 8>]) -> (r: (Vec<KeyColor>, Vec<KeyColor>))
    ensures
        r.0@.len() == state@.len(),
        r.1@.len() == state@.len(),
        forall|n: int|
            0 <= n < state@.len() ==> r.0@[n] == upper_color(key_slots(state@)[n], (n % 256) as u8)
                && r.1@[n] == lower_color(key_slots(state@), n as nat),
{
    let ghost ks = key_slots(state@);
    let mut upper: Vec<KeyColor> = Vec::new();
    let mut lower: Vec<KeyColor> = Vec::new();
    let mut prev = KeyColor::White;
    let mut n: usize = 0;
    while n < state.len()
        invariant
            n <= state@.len(),
            ks == key_slots(state@),
            upper@.len() == n,
            lower@.len() == n,
            n == 0 ==> prev == KeyColor::White,
            n > 0 ==> prev == lower_color(ks, (n - 1) as nat),
            forall|m: int|
                0 <= m < n ==> upper@[m] == upper_color(ks[m], (m % 256) as u8) && lower@[m] == lower_color(
                    ks,
                    m as nat,
                ),
        decreases state@.len() - n,
    {
        let natural = is_natural_note((n % 256) as u8);
        assert(ks[n as int] == set_slots(state@[n as int]));
        let up = match key_set_first(&state[n]) {
            Some(ch) => KeyColor::Channel(ch),
            None => if natural {
                KeyColor::White
            } else {
                KeyColor::Black
            },
        };
        if natural {
            prev = up;
        }
        upper.push(up);
        lower.push(prev);
        n += 1;
    }
    (upper, lower)
}

/// The kind of sound generator behind channel `ch`: FM for 0-2 and 6-8,
/// SSG for 3-5, rhythm for 9.
pub open spec fn channel_kind_text(ch: nat) -> Seq<char> {
    if ch == 9 {
        "RHY"@
    } else if ch < 3 || ch >= 6 {
        "FM "@
    } else if ch < 6 {
        "SSG"@
    } else {
        "   "@
    }
}

/// The kind of sound generator behind channel `ch`.
pub fn channel_kind(ch: usize) -> (r: &'static str)
    ensures
        r@ == channel_kind_text(ch as nat),
{
    if ch == 9 {
        "RHY"
    } else if ch < 3 || ch >= 6 {
        "FM "
    } else if ch < 6 {
        "SSG"
    } else {
        "   "
    }
}

/// The head of a channel's row: its kind, its number counted from 1 in two
/// columns, and the instrument name in brackets.
pub open spec fn channel_head_text(ch: nat, inst: Seq<char>) -> Seq<char> {
    "  "@ + channel_kind_text(ch) + "  Ch"@ + pad_left(decimal(ch + 1), 2) + " ["@ + inst + "]"@
}

/// The head of channel `ch`'s row.
pub fn channel_head(ch: usize, inst: &str) -> (r: String)
    requires
        ch < usize::MAX,
    ensures
        r@ == channel_head_text(ch as nat, inst@),
{
    let mut s = String::new();
    push_str(&mut s, "  ");
    push_str(&mut s, channel_kind(ch));
    push_str(&mut s, "  Ch");
    push_decimal_right(&mut s, (ch + 1) as u64, 2);
    push_str(&mut s, " [");
    push_str(&mut s, inst);
    push_str(&mut s, "]");
    assert(s@ =~= channel_head_text(ch as nat, inst@));
    s
}

/// The widest a line of suggestions gets before a new one starts.
pub const MAX_SUGGEST_LENGTH: usize = 80;

/// The lines of suggestions after the names `names`, given the lines done
/// `lines` and the line being filled `cur`: a name goes onto the current
/// line unless that line is already longer than `MAX_SUGGEST_LENGTH` bytes,
/// in which case the line is done and the name starts a new one.
pub open spec fn suggest_lines_from(names: Seq<Seq<char>>, lines: Seq<Seq<char>>, cur: Seq<char>) -> Seq<
    Seq<char>,
>
    decreases names.len(),
{
    if names.len() == 0 {
        if cur.len() == 0 {
            lines
        } else {
            lines.push(cur)
        }
    } else if text_bytes(cur).len() > MAX_SUGGEST_LENGTH {
        suggest_lines_from(names.drop_first(), lines.push(cur), names[0])
    } else {
        suggest_lines_from(names.drop_first(), lines, cur + names[0])
    }
}

/// The lines in which the suggested names are shown.
pub fn suggest_lines(names: &[String]) -> (r: Vec<String>)
    ensures
        r@.map_values(|s: String| s@) == suggest_lines_from(
            names@.map_values(|s: String| s@),
            seq![],
            seq![],
        ),
{
    let ghost all = names@.map_values(|s: String| s@);
    let mut lines: Vec<String> = Vec::new();
    let mut tmp = String::new();
    let mut i: usize = 0;
    assert(all.skip(0) =~= all);
    assert(lines@.map_values(|s: String| s@) =~= seq![]);
    assert(tmp@ =~= seq![]);
    while i < names.len()
        invariant
            i <= names@.len(),
            all == names@.map_values(|s: String| s@),
            suggest_lines_from(all.skip(i as int), lines@.map_values(|s: String| s@), tmp@)
                == suggest_lines_from(all, seq![], seq![]),
        decreases names@.len() - i,
    {
        assert(all.skip(i as int).drop_first() =~= all.skip(i + 1));
        assert(all.skip(i as int)[0] == names@[i as int]@);
        let ghost old_lines = lines@.map_values(|s: String| s@);
        let ghost rest = all.skip(i as int);
        let ghost old_tmp = tmp@;
        assert(suggest_lines_from(rest, old_lines, old_tmp) == if text_bytes(old_tmp).len() > MAX_SUGGEST_LENGTH {
            suggest_lines_from(rest.drop_first(), old_lines.push(old_tmp), rest[0])
        } else {
            suggest_lines_from(rest.drop_first(), old_lines, old_tmp + rest[0])
        });
        if byte_len(&tmp) > MAX_SUGGEST_LENGTH {
            let done = tmp;
            let ghost done_view = done@;
            lines.push(done);
            assert(lines@.map_values(|s: String| s@) =~= old_lines.push(done_view));
            tmp = String::new();
            push_str(&mut tmp, names[i].as_str());
            assert(tmp@ =~= rest[0]);
        } else {
            push_str(&mut tmp, names[i].as_str());
        }
        i += 1;
    }
    let ghost old_lines = lines@.map_values(|s: String| s@);
    assert(all.skip(i as int) =~= seq![]);
    if !tmp.as_str().is_empty() {
        let ghost tv = tmp@;
        lines.push(tmp);
        assert(lines@.map_values(|s: String| s@) =~= old_lines.push(tv));
    }
    lines
}

} // verus!
