//! Laws of the Standard MIDI File codec: the events that the writer writes
//! are read back as they were.
use vstd::prelude::*;

use crate::midi::{
    EventView,
    InfoView,
    MidiHeader,
    TrackParse,
    TrackStep,
    be32_bytes,
    body_bytes,
    event_bytes,
    find_byte,
    header_bytes,
    is_one_data,
    is_two_data,
    lemma_find_byte,
    lemma_header_roundtrip,
    lemma_track_step_progress,
    lemma_vlq_decode_len,
    mtrk,
    opt_seq,
    parse_events_from,
    parse_tracks_from,
    spec_parse_midi,
    spec_parse_track,
    track_chunk,
    track_step,
    tracks_bytes,
};
use crate::utils::be_u32;
use crate::vlq::{
    lemma_vlq_decode_encode,
    lemma_vlq_decode_prefix,
    lemma_vlq_encode_decode,
    lemma_vlq_end_props,
    lemma_vlq_value_bound,
    p128,
    vlq_bytes,
    vlq_decode,
    vlq_end,
    vlq_value,
};

verus! {

/// An event that the track writer writes in a form that the reader reads
/// back: its delta time fits four bytes of variable-length quantity; a
/// channel message has a channel below 16 and its two or one data bytes; a
/// system exclusive message (channel 0) ends its data with its only
/// `0xF7`; a meta event (channel 0) holds its type, the variable-length size
/// of its content, and exactly that content.
pub open spec fn well_formed_event(e: EventView) -> bool {
    &&& e.delta_time < 0x1000_0000
    &&& if is_two_data(e.status_byte) {
        e.ch < 16 && e.data.len() == 2
    } else if is_one_data(e.status_byte) {
        e.ch < 16 && e.data.len() == 1
    } else if e.status_byte == 0xf0 {
        &&& e.ch == 0
        &&& e.data.len() >= 1
        &&& e.data.last() == 0xf7
        &&& !e.data.drop_last().contains(0xf7u8)
    } else if e.status_byte == 0xff {
        &&& e.ch == 0
        &&& e.data.len() >= 2
        &&& vlq_decode(e.data.skip(1)) matches Some((ml, lb)) && e.data.len() == 1 + lb + ml
    } else {
        false
    }
}

/// Whether every event of a track is well formed.
pub open spec fn well_formed_track(evs: Seq<EventView>) -> bool {
    forall|i: int| 0 <= i < evs.len() ==> well_formed_event(#[trigger] evs[i])
}

#[verifier::spinoff_prover]
#[verifier::rlimit(40)]
proof fn lemma_find_first(s: Seq<u8>, from: nat, k: nat, b: u8)
    requires
        from <= k < s.len(),
        s[k as int] == b,
        forall|j: int| from <= j < k ==> s[j] != b,
    ensures
        find_byte(s, from, b) == Some(k),
    decreases k - from,
{
    if from < k {
        lemma_find_first(s, from + 1, k, b);
    }
}

#[verifier::spinoff_prover]
#[verifier::rlimit(40)]
proof fn lemma_channel_status(st: u8, ch: u8)
    requires
        is_two_data(st) || is_one_data(st),
        ch < 16,
    ensures
        (st | ch) & 0xf0 == st,
        (st | ch) & 0x0f == ch,
        st & 0xf0 != 0xf0,
{
    assert(st & 0x0f == 0 && st & 0xf0 == st && st & 0xf0 != 0xf0) by (bit_vector)
        requires
            st == 0x80 || st == 0x90 || st == 0xA0 || st == 0xB0 || st == 0xE0 || st == 0xC0 || st
                == 0xD0,
    ;
    assert((st | ch) & 0xf0 == st && (st | ch) & 0x0f == ch) by (bit_vector)
        requires
            st & 0x0f == 0,
            st & 0xf0 == st,
            ch < 16,
    ;
}

/// Whether `raw` holds the bytes `s` from `q` on.
spec fn holds_at(raw: Seq<u8>, q: int, s: Seq<u8>) -> bool {
    &&& 0 <= q
    &&& q + s.len() <= raw.len()
    &&& forall|j: int| 0 <= j < s.len() ==> raw[q + j] == #[trigger] s[j]
}

#[verifier::spinoff_prover]
#[verifier::rlimit(40)]
proof fn lemma_step_channel(raw: Seq<u8>, p: nat, before: u8, e: EventView, q: int)
    requires
        well_formed_event(e),
        is_two_data(e.status_byte) || is_one_data(e.status_byte),
        p < q,
        vlq_decode(raw.skip(p as int)) == Some((e.delta_time, (q - p) as nat)),
        holds_at(raw, q, seq![e.status_byte | e.ch] + e.data),
    ensures
        track_step(raw, p, before) matches TrackStep::Next { pos, event, .. } && pos == q + 1
            + e.data.len() && event == Some(e),
{
    lemma_channel_status(e.status_byte, e.ch);
    let t = seq![e.status_byte | e.ch] + e.data;
    assert(raw[q] == t[0]);
    assert(raw[q + 1] == t[1]);
    if is_two_data(e.status_byte) {
        assert(raw[q + 2] == t[2]);
        assert(e.data =~= seq![raw[q + 1], raw[q + 2]]);
    } else {
        assert(e.data =~= seq![raw[q + 1]]);
    }
}

#[verifier::spinoff_prover]
#[verifier::rlimit(40)]
proof fn lemma_step_sysex(raw: Seq<u8>, p: nat, before: u8, e: EventView, q: int)
    requires
        well_formed_event(e),
        e.status_byte == 0xf0,
        p < q,
        vlq_decode(raw.skip(p as int)) == Some((e.delta_time, (q - p) as nat)),
        holds_at(raw, q, seq![0xf0u8] + e.data),
    ensures
        track_step(raw, p, before) matches TrackStep::Next { pos, event, .. } && pos == q + 1
            + e.data.len() && event == Some(e),
{
    let t = seq![0xf0u8] + e.data;
    let n = e.data.len();
    assert(raw[q] == t[0]);
    let b = raw[q];
    assert(b & 0xf0 == 0xf0 && !is_two_data(b & 0xf0) && !is_one_data(b & 0xf0)) by (bit_vector)
        requires
            b == 0xf0,
    ;
    let k: nat = (q + n) as nat;
    assert(raw[k as int] == 0xf7) by {
        assert(t[n as int] == e.data[n - 1]);
    }
    assert forall|j: int| q + 1 <= j < k implies raw[j] != 0xf7u8 by {
        assert(t[j - q] == e.data[j - q - 1]);
        assert(e.data.drop_last()[j - q - 1] == e.data[j - q - 1]);
    }
    lemma_find_first(raw, (q + 1) as nat, k, 0xf7);
    assert forall|j: int| 0 <= j < n - 1 implies raw.subrange(q + 1, k as int)[j] == e.data[j] by {
        assert(t[j + 1] == e.data[j]);
    }
    assert(raw.subrange(q + 1, k as int) + seq![0xf7u8] =~= e.data);
}

#[verifier::spinoff_prover]
#[verifier::rlimit(40)]
proof fn lemma_step_meta(raw: Seq<u8>, p: nat, before: u8, e: EventView, q: int)
    requires
        well_formed_event(e),
        e.status_byte == 0xff,
        p < q,
        vlq_decode(raw.skip(p as int)) == Some((e.delta_time, (q - p) as nat)),
        holds_at(raw, q, seq![0xffu8] + e.data),
    ensures
        track_step(raw, p, before) matches TrackStep::Next { pos, event, .. } && pos == q + 1
            + e.data.len() && event == Some(e),
{
    let t = seq![0xffu8] + e.data;
    assert(raw[q] == t[0]);
    let b = raw[q];
    assert(b & 0xf0 == 0xf0 && !is_two_data(b & 0xf0) && !is_one_data(b & 0xf0)) by (bit_vector)
        requires
            b == 0xff,
    ;
    let d1 = e.data.skip(1);
    let (ml, lb) = vlq_decode(d1)->0;
    assert(raw.skip(q + 2).take(lb as int) =~= d1.take(lb as int)) by {
        assert forall|j: int| 0 <= j < lb implies raw.skip(q + 2)[j] == d1[j] by {
            assert(t[2 + j] == e.data[1 + j]);
        }
    }
    lemma_vlq_decode_prefix(d1, raw.skip(q + 2));
    assert(raw[q + 1] == t[1]);
    assert(t[1] == e.data[0]);
    let sub = raw.subrange(q + 2, q + 2 + lb + ml);
    assert(sub.len() == e.data.len() - 1);
    assert forall|j: int| 0 <= j < sub.len() implies sub[j] == e.data[1 + j] by {
        assert(t[2 + j] == e.data[1 + j]);
        assert(sub[j] == raw[q + 2 + j]);
    }
    assert(seq![raw[q + 1]] + sub =~= e.data);
}

/// Reading at `p`, where the bytes of a well-formed event start, gives the
/// event and moves past its bytes.
#[verifier::spinoff_prover]
#[verifier::rlimit(40)]
proof fn lemma_event_step(raw: Seq<u8>, p: nat, before: u8, e: EventView, rest: Seq<u8>)
    requires
        well_formed_event(e),
        p <= raw.len(),
        raw.skip(p as int) == event_bytes(e) + rest,
    ensures
        track_step(raw, p, before) matches TrackStep::Next { pos, event, .. } && pos == p
            + event_bytes(e).len() && event == Some(e),
{
    let v = vlq_bytes(e.delta_time as nat);
    let sb: u8 = if e.status_byte & 0xf0 == 0xf0 {
        e.status_byte
    } else {
        e.status_byte | e.ch
    };
    let t = seq![sb] + e.data;
    assert(event_bytes(e) == v + t);
    assert(event_bytes(e) + rest =~= v + (t + rest));
    lemma_vlq_encode_decode(e.delta_time as nat, t + rest);
    let q: int = (p + v.len()) as int;
    assert(raw.skip(p as int).len() == raw.len() - p);
    assert(holds_at(raw, q, t)) by {
        assert forall|j: int| 0 <= j < t.len() implies raw[q + j] == #[trigger] t[j] by {
            assert(raw.skip(p as int)[v.len() + j] == raw[q + j]);
            assert((v + (t + rest))[v.len() + j] == t[j]);
        }
    }
    if is_two_data(e.status_byte) || is_one_data(e.status_byte) {
        lemma_channel_status(e.status_byte, e.ch);
        lemma_step_channel(raw, p, before, e, q);
    } else if e.status_byte == 0xf0 {
        assert(0xf0u8 & 0xf0 == 0xf0) by (bit_vector);
        assert(t =~= seq![0xf0u8] + e.data);
        lemma_step_sysex(raw, p, before, e, q);
    } else {
        assert(0xffu8 & 0xf0 == 0xf0) by (bit_vector);
        assert(t =~= seq![0xffu8] + e.data);
        lemma_step_meta(raw, p, before, e, q);
    }
}

/// The bytes of a track's events, with the first event split off.
#[verifier::spinoff_prover]
#[verifier::rlimit(40)]
proof fn lemma_body_front(evs: Seq<EventView>)
    requires
        evs.len() > 0,
    ensures
        body_bytes(evs, false, false) == event_bytes(evs[0]) + body_bytes(
            evs.drop_first(),
            false,
            false,
        ),
    decreases evs.len(),
{
    if evs.len() == 1 {
        assert(evs.drop_last().len() == 0);
        assert(evs.drop_first().len() == 0);
        assert(body_bytes(evs.drop_last(), false, false) == Seq::<u8>::empty());
        assert(body_bytes(evs.drop_first(), false, false) == Seq::<u8>::empty());
        assert(evs.last() == evs[0]);
        assert(body_bytes(evs, false, false) =~= event_bytes(evs[0]));
    } else {
        lemma_body_front(evs.drop_last());
        assert(evs.drop_last().drop_first() =~= evs.drop_first().drop_last());
        assert(evs.drop_first().last() == evs.last());
        assert(body_bytes(evs, false, false) =~= event_bytes(evs[0]) + body_bytes(
            evs.drop_first(),
            false,
            false,
        ));
    }
}

#[verifier::spinoff_prover]
#[verifier::rlimit(40)]
proof fn lemma_parse_events(raw: Seq<u8>, p: nat, before: u8, acc: Seq<EventView>, evs: Seq<EventView>)
    requires
        well_formed_track(evs),
        p <= raw.len(),
        raw.skip(p as int) == body_bytes(evs, false, false),
    ensures
        parse_events_from(raw, p, before, acc) == TrackParse::Events(acc + evs),
    decreases evs.len(),
{
    if evs.len() == 0 {
        assert(raw.skip(p as int).len() == 0);
        assert(acc + evs =~= acc);
    } else {
        lemma_body_front(evs);
        let e = evs[0];
        let rest = body_bytes(evs.drop_first(), false, false);
        assert(well_formed_event(e));
        lemma_event_step(raw, p, before, e, rest);
        let eb = event_bytes(e);
        assert(eb.len() > 0);
        assert(raw.skip(p as int).len() == raw.len() - p);
        let pos = p + eb.len();
        assert(raw.skip(pos as int) =~= rest) by {
            assert forall|j: int| 0 <= j < rest.len() implies raw.skip(pos as int)[j] == rest[j] by {
                assert(raw.skip(p as int)[eb.len() + j] == raw[pos + j]);
            }
        }
        match track_step(raw, p, before) {
            TrackStep::Next { pos: np, running, event } => {
                assert(well_formed_track(evs.drop_first())) by {
                    assert forall|i: int| 0 <= i < evs.drop_first().len() implies well_formed_event(
                        #[trigger] evs.drop_first()[i],
                    ) by {
                        assert(evs.drop_first()[i] == evs[i + 1]);
                    }
                }
                lemma_parse_events(raw, pos as nat, running, acc + seq![e], evs.drop_first());
                assert(acc + seq![e] + evs.drop_first() =~= acc + evs);
            },
            _ => {},
        }
    }
}

/// Writing a track of well-formed events, with nothing dropped, and reading
/// its bytes back gives the events.
#[verifier::spinoff_prover]
#[verifier::rlimit(40)]
pub proof fn lemma_track_roundtrip(evs: Seq<EventView>)
    requires
        well_formed_track(evs),
    ensures
        spec_parse_track(body_bytes(evs, false, false)) == TrackParse::Events(evs),
{
    let raw = body_bytes(evs, false, false);
    assert(raw.skip(0) =~= raw);
    lemma_parse_events(raw, 0, 0, seq![], evs);
    assert(Seq::<EventView>::empty() + evs =~= evs);
}


/// The track chunks, with the first split off.
#[verifier::spinoff_prover]
#[verifier::rlimit(40)]
proof fn lemma_tracks_front(ts: Seq<Seq<EventView>>)
    requires
        ts.len() > 0,
    ensures
        tracks_bytes(ts, false, false) == track_chunk(ts[0], false, false) + tracks_bytes(
            ts.drop_first(),
            false,
            false,
        ),
    decreases ts.len(),
{
    if ts.len() == 1 {
        assert(tracks_bytes(ts.drop_last(), false, false) == Seq::<u8>::empty());
        assert(tracks_bytes(ts.drop_first(), false, false) == Seq::<u8>::empty());
        assert(ts.last() == ts[0]);
        assert(tracks_bytes(ts, false, false) =~= track_chunk(ts[0], false, false));
    } else {
        lemma_tracks_front(ts.drop_last());
        assert(ts.drop_last().drop_first() =~= ts.drop_first().drop_last());
        assert(ts.drop_first().last() == ts.last());
        assert(tracks_bytes(ts, false, false) =~= track_chunk(ts[0], false, false) + tracks_bytes(
            ts.drop_first(),
            false,
            false,
        ));
    }
}

#[verifier::spinoff_prover]
#[verifier::rlimit(40)]
proof fn lemma_be32(n: nat)
    requires
        n < 0x1_0000_0000,
    ensures
        be_u32(be32_bytes(n)[0], be32_bytes(n)[1], be32_bytes(n)[2], be32_bytes(n)[3]) == n,
{
    let m: u64 = n as u64;
    assert(((m / 0x1000000) % 256) * 0x1000000 + ((m / 0x10000) % 256) * 0x10000 + ((m / 0x100)
        % 256) * 0x100 + m % 256 == m) by (bit_vector)
        requires
            m < 0x1_0000_0000,
    ;
}

/// Whether every track holds well-formed events only, and is short enough
/// for the 32-bit length of its chunk once written.
pub open spec fn writable_tracks(ts: Seq<Seq<EventView>>) -> bool {
    forall|i: int|
        0 <= i < ts.len() ==> well_formed_track(#[trigger] ts[i]) && body_bytes(
            ts[i],
            false,
            false,
        ).len() < 0x1_0000_0000
}

#[verifier::spinoff_prover]
#[verifier::rlimit(40)]
proof fn lemma_chunk_at(d: Seq<u8>, pos: int, evs: Seq<EventView>, rest: Seq<u8>)
    requires
        0 <= pos <= d.len(),
        d.skip(pos) == track_chunk(evs, false, false) + rest,
        body_bytes(evs, false, false).len() < 0x1_0000_0000,
    ensures
        ({
            let len = body_bytes(evs, false, false).len() as int;
            &&& pos + 8 + len <= d.len()
            &&& d.subrange(pos, pos + 4) == mtrk()
            &&& be_u32(d[pos + 4], d[pos + 5], d[pos + 6], d[pos + 7]) == len
            &&& d.subrange(pos + 8, pos + 8 + len) == body_bytes(evs, false, false)
            &&& d.skip(pos + 8 + len) == rest
        }),
{
    let body = body_bytes(evs, false, false);
    let len = body.len() as int;
    let chunk = track_chunk(evs, false, false);
    let b = be32_bytes(len as nat);
    assert(chunk == mtrk() + b + body);
    assert(d.skip(pos).len() == d.len() - pos);
    assert forall|j: int| 0 <= j < 8 + len implies d[pos + j] == chunk[j] by {
        assert(d.skip(pos)[j] == d[pos + j]);
        assert((chunk + rest)[j] == chunk[j]);
    }
    assert(d.subrange(pos, pos + 4) =~= mtrk()) by {
        assert forall|j: int| 0 <= j < 4 implies d.subrange(pos, pos + 4)[j] == mtrk()[j] by {
            assert(chunk[j] == mtrk()[j]);
        }
    }
    assert(chunk[4] == b[0] && chunk[5] == b[1] && chunk[6] == b[2] && chunk[7] == b[3]);
    lemma_be32(len as nat);
    assert(d.subrange(pos + 8, pos + 8 + len) =~= body) by {
        assert forall|j: int| 0 <= j < len implies d.subrange(pos + 8, pos + 8 + len)[j] == body[j] by {
            assert(chunk[8 + j] == body[j]);
        }
    }
    let npos = pos + 8 + len;
    assert(d.skip(npos) =~= rest) by {
        assert forall|j: int| 0 <= j < rest.len() implies d.skip(npos)[j] == rest[j] by {
            assert(d.skip(pos)[8 + len + j] == d[npos + j]);
            assert((chunk + rest)[8 + len + j] == rest[j]);
        }
    }
}

#[verifier::spinoff_prover]
#[verifier::rlimit(40)]
proof fn lemma_parse_tracks(d: Seq<u8>, pos: int, ts: Seq<Seq<EventView>>, acc: Seq<Seq<EventView>>)
    requires
        writable_tracks(ts),
        0 <= pos <= d.len(),
        d.skip(pos) == tracks_bytes(ts, false, false),
    ensures
        parse_tracks_from(d, pos, ts.len(), acc) == Some(
            Ok::<Seq<Seq<EventView>>, crate::midi::MidiError>(acc + ts),
        ),
    decreases ts.len(),
{
    if ts.len() == 0 {
        assert(acc + ts =~= acc);
    } else {
        lemma_tracks_front(ts);
        let len = body_bytes(ts[0], false, false).len() as int;
        assert(well_formed_track(ts[0]) && len < 0x1_0000_0000);
        lemma_chunk_at(d, pos, ts[0], tracks_bytes(ts.drop_first(), false, false));
        lemma_track_roundtrip(ts[0]);
        assert(writable_tracks(ts.drop_first())) by {
            assert forall|i: int| 0 <= i < ts.drop_first().len() implies well_formed_track(
                #[trigger] ts.drop_first()[i],
            ) && body_bytes(ts.drop_first()[i], false, false).len() < 0x1_0000_0000 by {
                assert(ts.drop_first()[i] == ts[i + 1]);
            }
        }
        lemma_parse_tracks(d, pos + 8 + len, ts.drop_first(), acc.push(ts[0]));
        assert(acc.push(ts[0]) + ts.drop_first() =~= acc + ts);
    }
}

/// Writing a header and tracks of well-formed events, with nothing
/// dropped, and reading the bytes back gives the header and the tracks
/// (where each track's bytes fit the 32-bit length of its chunk).
#[verifier::spinoff_prover]
#[verifier::rlimit(40)]
pub proof fn lemma_file_roundtrip(h: MidiHeader, ts: Seq<Seq<EventView>>)
    requires
        h.tracks == ts.len(),
        writable_tracks(ts),
    ensures
        spec_parse_midi(header_bytes(h) + tracks_bytes(ts, false, false)) == Some(
            Ok::<InfoView, crate::midi::MidiError>(InfoView { header: h, tracks: ts }),
        ),
{
    let tb = tracks_bytes(ts, false, false);
    let d = header_bytes(h) + tb;
    lemma_header_roundtrip(h, tb);
    assert(d.skip(14) =~= tb);
    lemma_parse_tracks(d, 14, ts, seq![]);
    assert(Seq::<Seq<EventView>>::empty() + ts =~= ts);
}


#[verifier::spinoff_prover]
#[verifier::rlimit(40)]
proof fn lemma_delta_bound(s: Seq<u8>)
    requires
        vlq_decode(s) is Some,
    ensures
        (vlq_decode(s)->0).0 < 0x1000_0000,
{
    let k = vlq_end(s, 0)->0;
    lemma_vlq_end_props(s, 0);
    lemma_vlq_value_bound(s, k + 1);
    assert(p128(4) == 0x1000_0000) by {
        reveal_with_fuel(p128, 5);
    }
    assert(p128(k + 1) <= p128(4)) by {
        reveal_with_fuel(p128, 5);
    }
    let v = vlq_value(s, k + 1);
    assert(v < 0x1000_0000);
}

/// Every event that the reader reads is well formed.
#[verifier::spinoff_prover]
#[verifier::rlimit(40)]
proof fn lemma_step_well_formed(raw: Seq<u8>, p: nat, before: u8)
    requires
        p < raw.len(),
    ensures
        track_step(raw, p, before) matches TrackStep::Next { event: Some(e), .. } ==> well_formed_event(e),
{
    let s = raw.skip(p as int);
    if let Some((delta, dl)) = vlq_decode(s) {
        lemma_delta_bound(s);
        lemma_vlq_decode_len(s);
        let q: int = (p + dl) as int;
        if q < raw.len() {
            let b = raw[q];
            let rb = before;
            assert(b & 0x0f < 16 && rb & 0x0f < 16) by (bit_vector);
            if b == 0xf0 {
                lemma_find_byte(raw, (q + 1) as nat, 0xf7);
                if let Some(k) = find_byte(raw, (q + 1) as nat, 0xf7) {
                    let data = raw.subrange(q + 1, k as int) + seq![0xf7u8];
                    assert(data.drop_last() =~= raw.subrange(q + 1, k as int));
                    assert(!data.drop_last().contains(0xf7u8)) by {
                        if data.drop_last().contains(0xf7u8) {
                            let j = choose|j: int| 0 <= j < data.drop_last().len() && data.drop_last()[j] == 0xf7u8;
                            assert(raw[q + 1 + j] == 0xf7u8);
                        }
                    }
                }
            } else if b == 0xff && q + 1 < raw.len() {
                let s2 = raw.skip(q + 2);
                if let Some((ml, lb)) = vlq_decode(s2) {
                    if q + 2 + lb + ml <= raw.len() {
                        let sub = raw.subrange(q + 2, q + 2 + lb + ml);
                        lemma_vlq_decode_len(s2);
                        assert(sub.take(lb as int) =~= s2.take(lb as int));
                        lemma_vlq_decode_prefix(s2, sub);
                        let data = seq![raw[q + 1]] + sub;
                        assert(data.skip(1) =~= sub);
                    }
                }
            }
        }
    }
}

#[verifier::spinoff_prover]
#[verifier::rlimit(40)]
proof fn lemma_parse_events_wf(raw: Seq<u8>, p: nat, before: u8, acc: Seq<EventView>)
    requires
        well_formed_track(acc),
    ensures
        parse_events_from(raw, p, before, acc) matches TrackParse::Events(evs) ==> well_formed_track(evs),
    decreases raw.len() - p,
{
    if p < raw.len() {
        lemma_step_well_formed(raw, p, before);
        lemma_track_step_progress(raw, p, before);
        if let TrackStep::Next { pos, running, event } = track_step(raw, p, before) {
            if p < pos <= raw.len() {
                let acc2 = acc + opt_seq(event);
                assert(well_formed_track(acc2)) by {
                    assert forall|i: int| 0 <= i < acc2.len() implies well_formed_event(#[trigger] acc2[i]) by {
                        if i < acc.len() {
                            assert(acc2[i] == acc[i]);
                        }
                    }
                }
                lemma_parse_events_wf(raw, pos, running, acc2);
            }
        }
    }
}

/// Whether every track holds well-formed events only.
pub open spec fn well_formed_tracks(ts: Seq<Seq<EventView>>) -> bool {
    forall|i: int| 0 <= i < ts.len() ==> well_formed_track(#[trigger] ts[i])
}

#[verifier::spinoff_prover]
#[verifier::rlimit(40)]
proof fn lemma_parse_tracks_wf(d: Seq<u8>, pos: int, remaining: nat, acc: Seq<Seq<EventView>>)
    requires
        well_formed_tracks(acc),
    ensures
        parse_tracks_from(d, pos, remaining, acc) matches Some(Ok(ts)) ==> ts.len() == acc.len()
            + remaining && well_formed_tracks(ts),
    decreases remaining,
{
    if remaining > 0 && pos + 8 <= d.len() {
        let size = be_u32(d[pos + 4], d[pos + 5], d[pos + 6], d[pos + 7]);
        if pos + 8 + size <= d.len() {
            let raw = d.subrange(pos + 8, pos + 8 + size);
            lemma_parse_events_wf(raw, 0, 0, seq![]);
            if let TrackParse::Events(evs) = spec_parse_track(raw) {
                let acc2 = acc.push(evs);
                assert(well_formed_tracks(acc2)) by {
                    assert forall|i: int| 0 <= i < acc2.len() implies well_formed_track(#[trigger] acc2[i]) by {
                        if i < acc.len() {
                            assert(acc2[i] == acc[i]);
                        }
                    }
                }
                lemma_parse_tracks_wf(d, pos + 8 + size, (remaining - 1) as nat, acc2);
            }
        }
    }
}

/// Whether each track's bytes, once written, fit the 32-bit length of its
/// chunk.
pub open spec fn short_tracks(ts: Seq<Seq<EventView>>) -> bool {
    forall|i: int| 0 <= i < ts.len() ==> body_bytes(#[trigger] ts[i], false, false).len() < 0x1_0000_0000
}

/// Reading a file, writing its song back with nothing dropped, and reading
/// those bytes gives the same song (where each track's bytes fit the 32-bit
/// length of its chunk).
#[verifier::spinoff_prover]
#[verifier::rlimit(40)]
pub proof fn lemma_rewrite_reads_same(d: Seq<u8>)
    requires
        spec_parse_midi(d) matches Some(Ok(info)) && short_tracks(info.tracks),
    ensures
        ({
            let info = spec_parse_midi(d)->0->Ok_0;
            spec_parse_midi(header_bytes(info.header) + tracks_bytes(info.tracks, false, false))
                == spec_parse_midi(d)
        }),
{
    let info = spec_parse_midi(d)->0->Ok_0;
    lemma_parse_tracks_wf(d, 14, info.header.tracks as nat, seq![]);
    lemma_file_roundtrip(info.header, info.tracks);
}


/// Whether the events of `raw` from `p` on (with running status `before`)
/// are written as the writer writes them: every delta time in its
/// shortest form (not starting with `0x80`), every event with its own
/// status byte (no running status), and no escape (`0xF7`) event.
pub open spec fn canonical_from(raw: Seq<u8>, p: nat, before: u8) -> bool
    decreases raw.len() - p,
{
    if p >= raw.len() {
        true
    } else {
        match track_step(raw, p, before) {
            TrackStep::Next { pos, running, event } => {
                &&& raw[p as int] != 0x80
                &&& raw[(p + (vlq_decode(raw.skip(p as int))->0).1) as int] >= 0x80
                &&& event is Some
                &&& if p < pos <= raw.len() {
                    canonical_from(raw, pos, running)
                } else {
                    true
                }
            },
            _ => true,
        }
    }
}

/// The event read at `p`, written again, gives the bytes it was read from,
/// when its delta time is in its shortest form and its status is written.
#[verifier::spinoff_prover]
#[verifier::rlimit(60)]
proof fn lemma_step_bytes(raw: Seq<u8>, p: nat, before: u8)
    requires
        p < raw.len(),
        track_step(raw, p, before) matches TrackStep::Next { event: Some(_), .. },
        raw[p as int] != 0x80,
        raw[(p + (vlq_decode(raw.skip(p as int))->0).1) as int] >= 0x80,
    ensures
        track_step(raw, p, before) matches TrackStep::Next { pos, event: Some(e), .. } && event_bytes(e)
            == raw.subrange(p as int, pos as int),
{
    let s = raw.skip(p as int);
    let (delta, dl) = vlq_decode(s)->0;
    let k = vlq_end(s, 0)->0;
    lemma_vlq_end_props(s, 0);
    lemma_vlq_decode_encode(s);
    let v = vlq_value(s, k + 1);
    lemma_vlq_value_bound(s, k + 1);
    assert(p128(k + 1) <= p128(4)) by {
        reveal_with_fuel(p128, 5);
    }
    assert(p128(4) == 0x1000_0000) by {
        reveal_with_fuel(p128, 5);
    }
    assert(delta as nat == v);
    let q: int = (p + dl) as int;
    assert(s.take(dl as int) =~= raw.subrange(p as int, q));
    let b = raw[q];
    let st = b & 0xf0;
    assert((b & 0xf0) | (b & 0x0f) == b) by (bit_vector);
    if let TrackStep::Next { pos, event: Some(e), .. } = track_step(raw, p, before) {
        assert(e.delta_time == delta);
        if is_two_data(st) || is_one_data(st) {
            assert(st & 0xf0 != 0xf0 && st & 0xf0 == st) by (bit_vector)
                requires
                    st == 0x80 || st == 0x90 || st == 0xA0 || st == 0xB0 || st == 0xE0 || st == 0xC0
                        || st == 0xD0,
            ;
            assert(event_bytes(e) =~= raw.subrange(p as int, pos as int));
        } else {
            assert(st == 0xf0) by (bit_vector)
                requires
                    b >= 0x80,
                    st == b & 0xf0,
                    !(st == 0x80 || st == 0x90 || st == 0xA0 || st == 0xB0 || st == 0xE0 || st
                        == 0xC0 || st == 0xD0),
            ;
            assert(b == 0xf0 || b == 0xff);
            assert(b & 0xf0 == 0xf0) by (bit_vector)
                requires
                    b == 0xf0 || b == 0xff,
            ;
            if b == 0xf0 {
                lemma_find_byte(raw, (q + 1) as nat, 0xf7);
            }
            assert(event_bytes(e) =~= raw.subrange(p as int, pos as int));
        }
    }
}

#[verifier::spinoff_prover]
#[verifier::rlimit(40)]
proof fn lemma_rewrite_from(raw: Seq<u8>, p: nat, before: u8, acc: Seq<EventView>)
    requires
        p <= raw.len(),
        canonical_from(raw, p, before),
        parse_events_from(raw, p, before, acc) is Events,
    ensures
        body_bytes(parse_events_from(raw, p, before, acc)->Events_0, false, false) == body_bytes(
            acc,
            false,
            false,
        ) + raw.skip(p as int),
    decreases raw.len() - p,
{
    if p >= raw.len() {
        assert(raw.skip(p as int) =~= Seq::<u8>::empty());
        assert(body_bytes(acc, false, false) + raw.skip(p as int) =~= body_bytes(acc, false, false));
    } else {
        lemma_track_step_progress(raw, p, before);
        if let TrackStep::Next { pos, running, event } = track_step(raw, p, before) {
            lemma_step_bytes(raw, p, before);
            let e = event->0;
            let acc2 = acc + opt_seq(event);
            assert(acc2 =~= acc.push(e));
            assert(acc2.drop_last() =~= acc);
            assert(body_bytes(acc2, false, false) == body_bytes(acc, false, false) + event_bytes(e));
            lemma_rewrite_from(raw, pos, running, acc2);
            assert(raw.skip(p as int) =~= raw.subrange(p as int, pos as int) + raw.skip(pos as int));
            assert(body_bytes(acc2, false, false) + raw.skip(pos as int) =~= body_bytes(
                acc,
                false,
                false,
            ) + raw.skip(p as int));
        }
    }
}

/// Reading a track body whose events are written as the writer writes
/// them (delta times in their shortest form, a status byte on every event,
/// no escape event) and writing the events read, with nothing dropped,
/// gives the body back.
#[verifier::spinoff_prover]
#[verifier::rlimit(40)]
pub proof fn lemma_track_rewrite(raw: Seq<u8>)
    requires
        canonical_from(raw, 0, 0),
        spec_parse_track(raw) is Events,
    ensures
        body_bytes(spec_parse_track(raw)->Events_0, false, false) == raw,
{
    lemma_rewrite_from(raw, 0, 0, seq![]);
    assert(body_bytes(Seq::<EventView>::empty(), false, false) == Seq::<u8>::empty());
    assert(raw.skip(0) =~= raw);
    assert(Seq::<u8>::empty() + raw =~= raw);
}


/// The status and channel of an event read: with a status byte of its own
/// (`0x80` or more), a channel message takes its status from the high
/// nibble and its channel from the low nibble of that byte, and a system
/// message takes the whole byte and channel 0; with a data byte where the
/// status would stand (running status), the event takes the status and the
/// channel of the running status `before`, and that byte is its first data
/// byte. Its delta time is the number its variable-length quantity spells.
#[verifier::spinoff_prover]
#[verifier::rlimit(40)]
pub proof fn lemma_event_status_and_channel(raw: Seq<u8>, p: nat, before: u8)
    requires
        p < raw.len(),
        track_step(raw, p, before) matches TrackStep::Next { event: Some(_), .. },
    ensures
        ({
            let s = raw.skip(p as int);
            let e = track_step(raw, p, before)->Next_event->0;
            let k = vlq_end(s, 0)->0;
            let q = (p + k + 1) as int;
            let b = raw[q];
            &&& e.delta_time == vlq_value(s, k + 1)
            &&& if b < 0x80 {
                &&& e.ch == before & 0x0f
                &&& e.status_byte == before & 0xf0
                &&& e.data[0] == b
            } else if b < 0xf0 {
                &&& e.ch == b & 0x0f
                &&& e.status_byte == b & 0xf0
            } else {
                &&& e.ch == 0
                &&& e.status_byte == b
            }
        }),
{
    let s = raw.skip(p as int);
    let k = vlq_end(s, 0)->0;
    lemma_vlq_end_props(s, 0);
    lemma_delta_bound(s);
    let v = vlq_value(s, k + 1);
    lemma_vlq_value_bound(s, k + 1);
    assert(p128(k + 1) <= p128(4)) by {
        reveal_with_fuel(p128, 5);
    }
    assert(p128(4) == 0x1000_0000) by {
        reveal_with_fuel(p128, 5);
    }
    let q = (p + k + 1) as int;
    let b = raw[q];
    assert(b < 0x80 ==> b & 0xf0 < 0x80) by (bit_vector);
    assert(b >= 0x80 && b < 0xf0 ==> (b & 0xf0 >= 0x80 && b & 0xf0 < 0xf0)) by (bit_vector);
    assert(b >= 0xf0 ==> b & 0xf0 == 0xf0) by (bit_vector);
}

/// Under `ignore_text`, writing a track leaves out exactly the meta events
/// of a type below `0x0A` (the text events): adding any other event adds
/// its bytes, and adding such a text event adds nothing. Without either
/// option every event is written.
pub proof fn lemma_text_events_dropped(evs: Seq<EventView>, e: EventView, sysex_ignore: bool)
    requires
        e.status_byte != 0xf0 && e.status_byte != 0xf7,
        e.status_byte == 0xff ==> e.data.len() >= 1,
    ensures
        (e.status_byte == 0xff && e.data[0] < 0x0A) ==> body_bytes(evs.push(e), true, sysex_ignore)
            == body_bytes(evs, true, sysex_ignore),
        !(e.status_byte == 0xff && e.data[0] < 0x0A) ==> body_bytes(evs.push(e), true, sysex_ignore)
            == body_bytes(evs, true, sysex_ignore) + event_bytes(e),
        body_bytes(evs.push(e), false, false) == body_bytes(evs, false, false) + event_bytes(e),
{
    assert(evs.push(e).drop_last() =~= evs);
    assert(evs.push(e).last() == e);
}

/// With `sysex_ignore`, writing a track leaves out the system exclusive
/// events and keeps every other event that `ignore_text` keeps.
pub proof fn lemma_sysex_events_dropped(evs: Seq<EventView>, e: EventView, ignore_text: bool)
    requires
        e.status_byte == 0xff ==> e.data.len() >= 1,
    ensures
        (e.status_byte == 0xf0 || e.status_byte == 0xf7) ==> body_bytes(evs.push(e), ignore_text, true)
            == body_bytes(evs, ignore_text, true),
        (e.status_byte != 0xf0 && e.status_byte != 0xf7 && e.status_byte != 0xff)
            ==> body_bytes(evs.push(e), ignore_text, true) == body_bytes(evs, ignore_text, true)
            + event_bytes(e),
{
    assert(evs.push(e).drop_last() =~= evs);
    assert(evs.push(e).last() == e);
}

} // verus!
