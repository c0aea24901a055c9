use vstd::prelude::*;

use crate::midi::{EventView, Format, InfoView, MidiError, MidiInfo, mthd, spec_parse_midi};
use crate::paths::{path_file_name, std_path_file_name};
use crate::text::{chars_of, decimal, parse_usize, parse_usize_spec, push_decimal, push_str, string_from_chars};

verus! {

/// The big-endian value of four bytes.
pub open spec fn be_u32(b0: u8, b1: u8, b2: u8, b3: u8) -> int {
    b0 * 0x1000000 + b1 * 0x10000 + b2 * 0x100 + b3
}

/// Reads the first four bytes of `data` as a big-endian `u32`.
pub fn u32_from(data: &[u8]) -> (r: u32)
    requires
        data@.len() >= 4,
    ensures
        r as int == be_u32(data@[0], data@[1], data@[2], data@[3]),
{
    let b0 = data[0];
    let b1 = data[1];
    let b2 = data[2];
    let b3 = data[3];
    let r = (b0 as u32) << 24 | (b1 as u32) << 16 | (b2 as u32) << 8 | (b3 as u32);
    assert(r == b0 * 0x1000000 + b1 * 0x10000 + b2 * 0x100 + b3) by (bit_vector)
        requires
            r == (b0 as u32) << 24 | (b1 as u32) << 16 | (b2 as u32) << 8 | (b3 as u32),
    ;
    r
}


/// The little-endian value of four bytes.
pub open spec fn le_u32(b0: u8, b1: u8, b2: u8, b3: u8) -> int {
    b0 + b1 * 0x100 + b2 * 0x10000 + b3 * 0x1000000
}

/// Reads the first four bytes of `data` as a little-endian `u32`.
pub fn u32_from_le(data: &[u8]) -> (r: u32)
    requires
        data@.len() >= 4,
    ensures
        r as int == le_u32(data@[0], data@[1], data@[2], data@[3]),
{
    let b0 = data[0];
    let b1 = data[1];
    let b2 = data[2];
    let b3 = data[3];
    let r = (b0 as u32) | (b1 as u32) << 8 | (b2 as u32) << 16 | (b3 as u32) << 24;
    assert(r == b0 + b1 * 0x100 + b2 * 0x10000 + b3 * 0x1000000) by (bit_vector)
        requires
            r == (b0 as u32) | (b1 as u32) << 8 | (b2 as u32) << 16 | (b3 as u32) << 24,
    ;
    r
}

/// Which checks a file must pass before it is sent.
#[derive(Debug, Default)]
pub struct ValidationConf {
    /// Allow the channels of the YM2608 (Ch1 to Ch10, indices 0 to 9)
    /// rather than those of the YM2203 (Ch1 to Ch6, indices 0 to 5).
    pub ym2608: bool,
}

/// The number of channels that a file may use: channel indices go from 0
/// up to, not including, this number.
pub open spec fn max_channel(ym2608: bool) -> u8 {
    if ym2608 {
        10
    } else {
        6
    }
}

/// Whether some event of `ts` is on a channel index of `m` or more.
pub open spec fn has_channel_from(ts: Seq<Seq<EventView>>, m: u8) -> bool {
    exists|i: int, j: int| 0 <= i < ts.len() && 0 <= j < ts[i].len() && (#[trigger] ts[i][j]).ch >= m
}

/// The message for a format 2 file.
pub open spec fn format2_msg() -> Seq<char> {
    "Unsupported MIDI format detected (must be Format 0 or 1)."@
}

/// The message for a file with a channel beyond the first `m`.
pub open spec fn channel_msg(m: u8) -> Seq<char> {
    if m == 10 {
        "Unsupported MIDI channel detected (must be 1-10)."@
    } else {
        "Unsupported MIDI channel detected (must be 1-6)."@
    }
}

/// What checking a file gives.
pub enum CheckOutcome {
    /// A file that the player can play.
    Valid(InfoView),
    /// A file that cannot be read.
    Invalid(MidiError),
    /// A format 2 file.
    Format2,
    /// A file with a channel beyond the given number of channels.
    ChannelOutOfRange(u8),
    /// The file ends before a byte that the reading needs.
    Truncated,
}

/// What checking `d` gives: it is read as a MIDI file, then must be of
/// format 0 or 1 and use no channel beyond those allowed.
pub open spec fn validation_outcome(d: Seq<u8>, ym2608: bool) -> CheckOutcome {
    match spec_parse_midi(d) {
        None => CheckOutcome::Truncated,
        Some(Err(e)) => CheckOutcome::Invalid(e),
        Some(Ok(v)) => if v.header.format == Format::Format2 {
            CheckOutcome::Format2
        } else if has_channel_from(v.tracks, max_channel(ym2608)) {
            CheckOutcome::ChannelOutOfRange(max_channel(ym2608))
        } else {
            CheckOutcome::Valid(v)
        },
    }
}

/// A file of format 0 or 1 is refused, with the channel message, exactly
/// when some event of some track is on a channel index of 6 or more (10 or
/// more for the YM2608); otherwise it is accepted as read.
pub proof fn lemma_channels_checked(d: Seq<u8>, ym2608: bool)
    requires
        spec_parse_midi(d) matches Some(Ok(v)) && v.header.format != Format::Format2,
    ensures
        ({
            let v = spec_parse_midi(d)->0->Ok_0;
            let limit: u8 = if ym2608 {
                10
            } else {
                6
            };
            &&& (exists|i: int, j: int|
                0 <= i < v.tracks.len() && 0 <= j < v.tracks[i].len() && #[trigger] v.tracks[i][j].ch
                    >= limit) ==> validation_outcome(d, ym2608) == CheckOutcome::ChannelOutOfRange(limit)
            &&& (forall|i: int, j: int|
                0 <= i < v.tracks.len() && 0 <= j < v.tracks[i].len() ==> #[trigger] v.tracks[i][j].ch
                    < limit) ==> validation_outcome(d, ym2608) == CheckOutcome::Valid(v)
            &&& channel_msg(limit) == if ym2608 {
                "Unsupported MIDI channel detected (must be 1-10)."@
            } else {
                "Unsupported MIDI channel detected (must be 1-6)."@
            }
        }),
{
    let v = spec_parse_midi(d)->0->Ok_0;
    let limit: u8 = if ym2608 {
        10
    } else {
        6
    };
    if exists|i: int, j: int|
        0 <= i < v.tracks.len() && 0 <= j < v.tracks[i].len() && #[trigger] v.tracks[i][j].ch >= limit {
        let (i, j) = choose|i: int, j: int|
            0 <= i < v.tracks.len() && 0 <= j < v.tracks[i].len() && #[trigger] v.tracks[i][j].ch >= limit;
        assert(has_channel_from(v.tracks, max_channel(ym2608)));
    }
}

/// A file that the player accepts for the YM2203 it also accepts, as the
/// same song, for the YM2608, whose channels include those of the YM2203.
pub proof fn lemma_ym2203_file_plays_on_ym2608(d: Seq<u8>)
    requires
        validation_outcome(d, false) is Valid,
    ensures
        validation_outcome(d, true) == validation_outcome(d, false),
{
    let v = spec_parse_midi(d)->0->Ok_0;
    if has_channel_from(v.tracks, 10) {
        let (i, j) = choose|i: int, j: int|
            0 <= i < v.tracks.len() && 0 <= j < v.tracks[i].len() && (#[trigger] v.tracks[i][j]).ch >= 10;
        assert(v.tracks[i][j].ch >= 6);
    }
}

/// Reads `data` as a MIDI file that the player can play: format 0 or 1,
/// and no channel beyond those that `conf` allows (Ch1-Ch6, or Ch1-Ch10
/// for the YM2608).
pub fn validation_midi_file(data: &[u8], conf: &ValidationConf) -> (r: Result<MidiInfo, MidiError>)
    requires
        spec_parse_midi(data@) is Some,
    ensures
        match validation_outcome(data@, conf.ym2608) {
            CheckOutcome::Valid(v) => r matches Ok(info) && info@ == v,
            CheckOutcome::Invalid(e) => r == Err::<MidiInfo, MidiError>(e),
            CheckOutcome::Format2 => r matches Err(MidiError::Custom(m)) && m@ == format2_msg(),
            CheckOutcome::ChannelOutOfRange(c) => r matches Err(MidiError::Custom(m)) && m@ == channel_msg(c),
            CheckOutcome::Truncated => false,
        },
{
    let max_ch: u8 = if conf.ym2608 {
        10
    } else {
        6
    };
    let info = match MidiInfo::try_from(data) {
        Ok(info) => info,
        Err(e) => {
            return Err(e);
        },
    };
    if info.get_header().format() == Format::Format2 {
        return Err(MidiError::Custom("Unsupported MIDI format detected (must be Format 0 or 1)."));
    }
    let ghost tv = info@.tracks;
    let tracks = info.get_tracks();
    let mut t: usize = 0;
    while t < tracks.len()
        invariant
            t <= tracks@.len(),
            tracks@ == info.tracks@,
            tv == info@.tracks,
            spec_parse_midi(data@) == Some(Ok::<InfoView, MidiError>(info@)),
            info.header.format != Format::Format2,
            max_ch == max_channel(conf.ym2608),
            forall|i: int, j: int| 0 <= i < t && 0 <= j < tv[i].len() ==> (#[trigger] tv[i][j]).ch
                < max_ch,
        decreases tracks@.len() - t,
    {
        let events = &tracks[t];
        let mut k: usize = 0;
        while k < events.len()
            invariant
                k <= events@.len(),
                t < tracks@.len(),
                tracks@ == info.tracks@,
                tv == info@.tracks,
                spec_parse_midi(data@) == Some(Ok::<InfoView, MidiError>(info@)),
                info.header.format != Format::Format2,
                max_ch == max_channel(conf.ym2608),
                events@ == tracks@[t as int]@,
                forall|i: int, j: int| 0 <= i < t && 0 <= j < tv[i].len() ==> (#[trigger] tv[i][j]).ch
                    < max_ch,
                forall|j: int| 0 <= j < k ==> (#[trigger] tv[t as int][j]).ch < max_ch,
            decreases events@.len() - k,
        {
            assert(tv[t as int][k as int] == events@[k as int]@);
            if events[k].ch() >= max_ch {
                proof {
                    assert((tv[t as int][k as int]).ch >= max_ch);
                }
                if max_ch == 10 {
                    return Err(MidiError::Custom("Unsupported MIDI channel detected (must be 1-10)."));
                } else {
                    return Err(MidiError::Custom("Unsupported MIDI channel detected (must be 1-6)."));
                }
            }
            k += 1;
        }
        t += 1;
    }
    Ok(info)
}

/// The title of the song in `info`. The track name meta event cannot be
/// told apart from a song title, so no title is read: the caller falls back
/// on the file name.
pub fn get_title(info: &MidiInfo) -> (r: Option<String>)
    ensures
        r is None,
{
    None
}


/// Whether `contents` starts with the magic of a MIDI header chunk.
pub fn check_midi_format(contents: &[u8]) -> (r: bool)
    ensures
        r == (contents@.len() >= 4 && contents@.take(4) == mthd()),
{
    if contents.len() < 4 {
        return false;
    }
    let r = contents[0] == 0x4d && contents[1] == 0x54 && contents[2] == 0x68 && contents[3] == 0x64;
    proof {
        if contents@.take(4) == mthd() {
            assert(contents@.take(4)[0] == contents@[0] && contents@.take(4)[1] == contents@[1]
                && contents@.take(4)[2] == contents@[2] && contents@.take(4)[3] == contents@[3]);
        }
        if r {
            assert(contents@.take(4) =~= mthd());
        }
    }
    r
}

/// An entry of a directory, by its path.
#[derive(Debug)]
pub struct DirItem {
    pub path: String,
}

impl DirItem {
    /// The entry at `path`.
    pub fn new(path: String) -> (r: DirItem)
        ensures
            r.path@ == path@,
    {
        DirItem { path }
    }

    /// The path of the entry.
    pub fn path(&self) -> (r: &str)
        ensures
            r@ == self.path@,
    {
        self.path.as_str()
    }

    /// The path as text; a path held as a `String` always is text.
    pub fn as_str(&self) -> (r: Option<&str>)
        ensures
            r matches Some(s) && s@ == self.path@,
    {
        Some(self.path.as_str())
    }

    /// The file name of the entry, if its path has one.
    pub fn get_file_name(&self) -> (r: Option<String>)
        ensures
            r matches Some(s) ==> std_path_file_name(self.path@) == Some(s@),
            r is None ==> std_path_file_name(self.path@) is None,
    {
        path_file_name(self.path.as_str())
    }
}

/// A value and whether it changed.
#[derive(Debug)]
pub struct UpdateResult<T> {
    pub content: T,
    pub changed: bool,
}

impl<T> UpdateResult<T> {
    /// `data`, changed.
    pub fn updated(data: T) -> (r: UpdateResult<T>)
        ensures
            r.content == data,
            r.changed,
    {
        UpdateResult { content: data, changed: true }
    }

    /// `data`, unchanged.
    pub fn not_updated(data: T) -> (r: UpdateResult<T>)
        ensures
            r.content == data,
            !r.changed,
    {
        UpdateResult { content: data, changed: false }
    }

    /// Whether the value changed.
    pub fn is_update(&self) -> (r: bool)
        ensures
            r == self.changed,
    {
        self.changed
    }

    /// The value.
    pub fn get_content(&self) -> (r: &T)
        ensures
            *r == self.content,
    {
        &self.content
    }
}

/// The number of leading characters that `a` and `b` share.
pub open spec fn common_len(a: Seq<char>, b: Seq<char>) -> nat
    decreases a.len(),
{
    if a.len() == 0 || b.len() == 0 || a[0] != b[0] {
        0
    } else {
        1 + common_len(a.drop_first(), b.drop_first())
    }
}

/// The file names of the entries.
pub open spec fn file_names(items: Seq<DirItem>) -> Seq<Option<Seq<char>>> {
    items.map_values(|d: DirItem| std_path_file_name(d.path@))
}

/// The longest common prefix of the names, or none when a name is missing
/// or there is no name.
pub open spec fn names_prefix(names: Seq<Option<Seq<char>>>) -> Option<Seq<char>>
    decreases names.len(),
{
    if names.len() == 0 {
        None
    } else if names.len() == 1 {
        names[0]
    } else {
        match (names_prefix(names.drop_last()), names.last()) {
            (Some(p), Some(n)) => Some(p.take(common_len(p, n) as int)),
            _ => None,
        }
    }
}

proof fn lemma_common_len(a: Seq<char>, b: Seq<char>, i: nat)
    requires
        i <= a.len(),
        i <= b.len(),
        forall|j: int| 0 <= j < i ==> a[j] == b[j],
    ensures
        (i == a.len() || i == b.len() || a[i as int] != b[i as int]) ==> common_len(a, b) == i,
    decreases i,
{
    if i > 0 {
        lemma_common_len(a.drop_first(), b.drop_first(), (i - 1) as nat);
    }
}

fn common_prefix_len(a: &Vec<char>, b: &Vec<char>) -> (r: usize)
    ensures
        r == common_len(a@, b@),
        r <= a@.len(),
{
    let mut i: usize = 0;
    while i < a.len() && i < b.len() && a[i] == b[i]
        invariant
            i <= a@.len(),
            i <= b@.len(),
            forall|j: int| 0 <= j < i ==> a@[j] == b@[j],
        decreases a@.len() - i,
    {
        i += 1;
    }
    proof {
        lemma_common_len(a@, b@, i as nat);
    }
    i
}

/// The longest prefix shared by the file names of all `items`: none when
/// there are no items, when an item has no file name, or when the prefix
/// is empty.
pub fn get_common_filename_prefix(items: &[DirItem]) -> (r: Option<String>)
    ensures
        match names_prefix(file_names(items@)) {
            Some(p) => if p.len() == 0 {
                r is None
            } else {
                r matches Some(s) && s@ == p
            },
            None => r is None,
        },
{
    let ghost names = file_names(items@);
    if items.len() == 0 {
        return None;
    }
    let first = match items[0].get_file_name() {
        Some(n) => n,
        None => {
            proof {
                assert(names.take(1)[0] == names[0]);
                lemma_prefix_none(names, 1);
            }
            return None;
        },
    };
    let mut prefix = chars_of(first.as_str());
    let mut i: usize = 1;
    assert(names.take(1) =~= seq![names[0]]);
    while i < items.len()
        invariant
            1 <= i <= items@.len(),
            names == file_names(items@),
            names_prefix(names.take(i as int)) == Some(prefix@),
        decreases items@.len() - i,
    {
        assert(names.take(i + 1).drop_last() =~= names.take(i as int));
        assert(names.take(i + 1).last() == names[i as int]);
        let name = match items[i].get_file_name() {
            Some(n) => n,
            None => {
                proof {
                    lemma_prefix_none(names, (i + 1) as nat);
                }
                return None;
            },
        };
        let nc = chars_of(name.as_str());
        let k = common_prefix_len(&prefix, &nc);
        prefix.truncate(k);
        assert(prefix@ =~= names_prefix(names.take(i + 1))->0);
        i += 1;
    }
    assert(names.take(items@.len() as int) =~= names);
    if prefix.len() == 0 {
        None
    } else {
        Some(string_from_chars(prefix.as_slice()))
    }
}

proof fn lemma_prefix_none(names: Seq<Option<Seq<char>>>, k: nat)
    requires
        1 <= k <= names.len(),
        names_prefix(names.take(k as int)) is None,
    ensures
        names_prefix(names) is None,
    decreases names.len() - k,
{
    if k < names.len() {
        assert(names.take(k + 1 as int).drop_last() =~= names.take(k as int));
        lemma_prefix_none(names, k + 1);
    } else {
        assert(names.take(k as int) =~= names);
    }
}

/// The addresses of the UDP link: where to send and where to listen.
pub struct SocketInfo {
    pub tx_addr: String,
    pub rx_addr: String,
}

/// The address and port to send to (both needed) and to listen on (the
/// address defaults to `0.0.0.0`, the port to the one after the sending
/// port, which is read as a number only then), each as `address:port`.
pub fn get_udp_addrinfo(tx_info: (Option<String>, Option<String>), rx_info: (Option<String>, Option<String>)) -> (r: Option<SocketInfo>)
    requires
        tx_info.0 is Some && tx_info.1 is Some && rx_info.1 is None ==> (parse_usize_spec(
            tx_info.1->0@,
        ) matches Some(v) && v < usize::MAX),
    ensures
        !(tx_info.0 is Some && tx_info.1 is Some) ==> r is None,
        tx_info.0 is Some && tx_info.1 is Some ==> (r matches Some(info) && info.tx_addr@
            == tx_info.0->0@ + ":"@ + tx_info.1->0@ && info.rx_addr@ == (match rx_info.0 {
            Some(a) => a@,
            None => "0.0.0.0"@,
        }) + ":"@ + (match rx_info.1 {
            Some(p) => p@,
            None => decimal(parse_usize_spec(tx_info.1->0@)->0 + 1),
        })),
{
    match (tx_info.0, tx_info.1) {
        (Some(tx_ip), Some(tx_port)) => {
            let mut tx_addr = String::new();
            push_str(&mut tx_addr, tx_ip.as_str());
            push_str(&mut tx_addr, ":");
            push_str(&mut tx_addr, tx_port.as_str());
            let mut rx_addr = String::new();
            match rx_info.0 {
                Some(a) => push_str(&mut rx_addr, a.as_str()),
                None => push_str(&mut rx_addr, "0.0.0.0"),
            }
            push_str(&mut rx_addr, ":");
            match rx_info.1 {
                Some(p) => push_str(&mut rx_addr, p.as_str()),
                None => {
                    let port_value = parse_usize(tx_port.as_str()).unwrap();
                    push_decimal(&mut rx_addr, (port_value + 1) as u64);
                },
            }
            Some(SocketInfo { tx_addr, rx_addr })
        },
        _ => None,
    }
}

} // verus!
