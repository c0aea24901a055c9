//! Merging the tracks of a file into the single track of a format 0 file.
use vstd::multiset::Multiset;
use vstd::prelude::*;

use crate::midi::{
    EventView, Format, InfoView, MidiEvent, MidiHeader, MidiInfo, eot_readable, events_view, is_eot,
    tracks_view,
};

verus! {

/// The first track, among those with events left, whose next event is due
/// soonest; ties go to the lowest index. (A table of waits keyed by track
/// and searched for its least entry would settle ties by the order in
/// which it is walked, which nothing fixes; the lowest index is one of the
/// tracks such a search may give, and makes the merge a function of the
/// tracks.) `best` is the pick among the tracks
/// before `i`.
pub open spec fn first_due(qs: Seq<Seq<EventView>>, waits: Seq<int>, i: nat, best: Option<nat>) -> Option<
    nat,
>
    decreases qs.len() - i,
{
    if i >= qs.len() {
        best
    } else if qs[i as int].len() == 0 {
        first_due(qs, waits, i + 1, best)
    } else {
        match best {
            None => first_due(qs, waits, i + 1, Some(i)),
            Some(b) => if waits[i as int] < waits[b as int] {
                first_due(qs, waits, i + 1, Some(i))
            } else {
                first_due(qs, waits, i + 1, Some(b))
            },
        }
    }
}

/// The number of events left in all queues.
pub open spec fn total_len(qs: Seq<Seq<EventView>>) -> nat
    decreases qs.len(),
{
    if qs.len() == 0 {
        0
    } else {
        total_len(qs.drop_last()) + qs.last().len()
    }
}

/// An event with its delta time replaced.
pub open spec fn with_delta(e: EventView, d: int) -> EventView {
    EventView { delta_time: d as usize, ch: e.ch, status_byte: e.status_byte, data: e.data }
}

/// The waits after the next event of track `k`, due in `d` ticks, is taken:
/// every other wait goes down by `d` (not below zero), and track `k` waits
/// for the delta time of its following event.
pub open spec fn next_waits(qs: Seq<Seq<EventView>>, waits: Seq<int>, k: int, d: int) -> Seq<int> {
    Seq::new(
        waits.len(),
        |j: int|
            if j == k {
                if qs[k].len() > 1 {
                    qs[k][1].delta_time as int
                } else {
                    0
                }
            } else if waits[j] >= d {
                waits[j] - d
            } else {
                0
            },
    )
}

/// Merging the queues `qs` into one track, after the events `acc`: take the
/// next event of the track that is due soonest, give it the wait as delta
/// time, and keep it unless it is an end-of-track event.
pub open spec fn merge_from(qs: Seq<Seq<EventView>>, waits: Seq<int>, acc: Seq<EventView>) -> Seq<
    EventView,
>
    decreases total_len(qs),
{
    match first_due(qs, waits, 0, None) {
        None => acc,
        Some(k) => {
            let d = waits[k as int];
            let e = qs[k as int][0];
            let qs2 = qs.update(k as int, qs[k as int].drop_first());
            proof {
                lemma_first_due(qs, waits, 0, None);
                lemma_total_len_take(qs, k as int);
            }
            merge_from(
                qs2,
                next_waits(qs, waits, k as int, d),
                if is_eot(e) {
                    acc
                } else {
                    acc.push(with_delta(e, d))
                },
            )
        },
    }
}

/// The single track of the format 0 version of the tracks `ts`.
pub open spec fn format0_events(ts: Seq<Seq<EventView>>) -> Seq<EventView> {
    merge_from(ts, Seq::new(ts.len(), |i: int| ts[i][0].delta_time as int), seq![])
}

/// What `first_due` picks is a track with events left, and it finds one
/// whenever there is one.
pub proof fn lemma_first_due(qs: Seq<Seq<EventView>>, waits: Seq<int>, i: nat, best: Option<nat>)
    requires
        best matches Some(b) ==> b < qs.len() && qs[b as int].len() > 0,
    ensures
        first_due(qs, waits, i, best) matches Some(k) ==> k < qs.len() && qs[k as int].len() > 0,
        first_due(qs, waits, i, best) is None ==> best is None && forall|j: int|
            i <= j < qs.len() ==> qs[j].len() == 0,
    decreases qs.len() - i,
{
    if i < qs.len() {
        if qs[i as int].len() == 0 {
            lemma_first_due(qs, waits, i + 1, best);
        } else {
            match best {
                None => lemma_first_due(qs, waits, i + 1, Some(i)),
                Some(b) => if waits[i as int] < waits[b as int] {
                    lemma_first_due(qs, waits, i + 1, Some(i))
                } else {
                    lemma_first_due(qs, waits, i + 1, Some(b))
                },
            }
        }
    }
}

proof fn lemma_first_due_least(qs: Seq<Seq<EventView>>, waits: Seq<int>, i: nat, best: Option<nat>)
    requires
        best matches Some(b) ==> b < qs.len() && qs[b as int].len() > 0,
        waits.len() == qs.len(),
    ensures
        first_due(qs, waits, i, best) matches Some(k) ==> {
            &&& (best matches Some(b) ==> waits[k as int] <= waits[b as int])
            &&& forall|j: int| i <= j < qs.len() && qs[j].len() > 0 ==> waits[k as int] <= waits[j]
        },
    decreases qs.len() - i,
{
    if i < qs.len() {
        if qs[i as int].len() == 0 {
            lemma_first_due_least(qs, waits, i + 1, best);
        } else {
            match best {
                None => lemma_first_due_least(qs, waits, i + 1, Some(i)),
                Some(b) => if waits[i as int] < waits[b as int] {
                    lemma_first_due_least(qs, waits, i + 1, Some(i))
                } else {
                    lemma_first_due_least(qs, waits, i + 1, Some(b))
                },
            }
        }
    }
}

/// The merge always takes next an event of a track that is due no later
/// than any other track with events left, and it takes one whenever some
/// track has events left.
pub proof fn lemma_first_due_is_soonest(qs: Seq<Seq<EventView>>, waits: Seq<int>)
    requires
        waits.len() == qs.len(),
    ensures
        first_due(qs, waits, 0, None) matches Some(k) ==> {
            &&& k < qs.len()
            &&& qs[k as int].len() > 0
            &&& forall|j: int| 0 <= j < qs.len() && qs[j].len() > 0 ==> waits[k as int] <= waits[j]
        },
        first_due(qs, waits, 0, None) is None ==> forall|j: int| 0 <= j < qs.len() ==> qs[j].len()
            == 0,
{
    lemma_first_due(qs, waits, 0, None);
    lemma_first_due_least(qs, waits, 0, None);
}

/// Taking one event from a queue shortens the total by one.
pub proof fn lemma_total_len_take(qs: Seq<Seq<EventView>>, k: int)
    requires
        0 <= k < qs.len(),
        qs[k].len() > 0,
    ensures
        total_len(qs.update(k, qs[k].drop_first())) + 1 == total_len(qs),
    decreases qs.len(),
{
    let q2 = qs.update(k, qs[k].drop_first());
    if k < qs.len() - 1 {
        lemma_total_len_take(qs.drop_last(), k);
        assert(q2.drop_last() =~= qs.drop_last().update(k, qs[k].drop_first()));
    } else {
        assert(q2.drop_last() =~= qs.drop_last());
    }
}


/// An event without its delta time: its channel, status and data.
pub open spec fn content(e: EventView) -> (u8, u8, Seq<u8>) {
    (e.ch, e.status_byte, e.data)
}

/// The contents of a sequence of events, counted.
pub open spec fn contents(evs: Seq<EventView>) -> Multiset<(u8, u8, Seq<u8>)>
    decreases evs.len(),
{
    if evs.len() == 0 {
        Multiset::empty()
    } else {
        contents(evs.drop_last()).insert(content(evs.last()))
    }
}

/// The contents of a track's events other than end-of-track events.
pub open spec fn kept_contents(q: Seq<EventView>) -> Multiset<(u8, u8, Seq<u8>)>
    decreases q.len(),
{
    if q.len() == 0 {
        Multiset::empty()
    } else if is_eot(q[0]) {
        kept_contents(q.drop_first())
    } else {
        kept_contents(q.drop_first()).insert(content(q[0]))
    }
}

/// The contents of all tracks' events other than end-of-track events.
pub open spec fn all_kept_contents(qs: Seq<Seq<EventView>>) -> Multiset<(u8, u8, Seq<u8>)>
    decreases qs.len(),
{
    if qs.len() == 0 {
        Multiset::empty()
    } else {
        all_kept_contents(qs.drop_last()).add(kept_contents(qs.last()))
    }
}

proof fn lemma_all_kept_take(qs: Seq<Seq<EventView>>, k: int)
    requires
        0 <= k < qs.len(),
        qs[k].len() > 0,
    ensures
        ({
            let rest = all_kept_contents(qs.update(k, qs[k].drop_first()));
            all_kept_contents(qs) == if is_eot(qs[k][0]) {
                rest
            } else {
                rest.insert(content(qs[k][0]))
            }
        }),
    decreases qs.len(),
{
    broadcast use vstd::multiset::group_multiset_axioms;

    let q2 = qs.update(k, qs[k].drop_first());
    if k < qs.len() - 1 {
        lemma_all_kept_take(qs.drop_last(), k);
        assert(q2.drop_last() =~= qs.drop_last().update(k, qs[k].drop_first()));
        assert(q2.last() == qs.last());
    } else {
        assert(q2.drop_last() =~= qs.drop_last());
        assert(q2.last() == qs[k].drop_first());
    }
    let rest = all_kept_contents(q2);
    if is_eot(qs[k][0]) {
        assert(all_kept_contents(qs) =~= rest);
    } else {
        assert(all_kept_contents(qs) =~= rest.insert(content(qs[k][0])));
    }
}

proof fn lemma_all_kept_empty(qs: Seq<Seq<EventView>>)
    requires
        forall|j: int| 0 <= j < qs.len() ==> #[trigger] qs[j].len() == 0,
    ensures
        all_kept_contents(qs) == Multiset::<(u8, u8, Seq<u8>)>::empty(),
    decreases qs.len(),
{
    broadcast use vstd::multiset::group_multiset_axioms;

    if qs.len() > 0 {
        assert(qs.last().len() == 0);
        lemma_all_kept_empty(qs.drop_last());
        assert(all_kept_contents(qs) =~= Multiset::<(u8, u8, Seq<u8>)>::empty());
    }
}

proof fn lemma_merge_contents(qs: Seq<Seq<EventView>>, waits: Seq<int>, acc: Seq<EventView>)
    ensures
        contents(merge_from(qs, waits, acc)) == contents(acc).add(all_kept_contents(qs)),
    decreases total_len(qs),
{
    broadcast use vstd::multiset::group_multiset_axioms;

    lemma_first_due(qs, waits, 0, None);
    match first_due(qs, waits, 0, None) {
        None => {
            lemma_all_kept_empty(qs);
            assert(contents(acc).add(all_kept_contents(qs)) =~= contents(acc));
        },
        Some(k) => {
            let d = waits[k as int];
            let e = qs[k as int][0];
            let qs2 = qs.update(k as int, qs[k as int].drop_first());
            lemma_total_len_take(qs, k as int);
            lemma_all_kept_take(qs, k as int);
            let acc2 = if is_eot(e) {
                acc
            } else {
                acc.push(with_delta(e, d))
            };
            lemma_merge_contents(qs2, next_waits(qs, waits, k as int, d), acc2);
            if !is_eot(e) {
                assert(acc2.drop_last() =~= acc);
                assert(content(with_delta(e, d)) == content(e));
                assert(contents(acc2) == contents(acc).insert(content(e)));
                assert(contents(acc2).add(all_kept_contents(qs2)) =~= contents(acc).add(
                    all_kept_contents(qs),
                ));
            }
        },
    }
}

/// Merging into one track keeps every event but the end-of-track events,
/// each as often as the tracks hold it: the merged events, delta times
/// aside, are those of the tracks.
pub proof fn lemma_format0_same_events(ts: Seq<Seq<EventView>>)
    ensures
        contents(format0_events(ts)) == all_kept_contents(ts),
{
    broadcast use vstd::multiset::group_multiset_axioms;

    lemma_merge_contents(ts, Seq::new(ts.len(), |i: int| ts[i][0].delta_time as int), seq![]);
    assert(contents(Seq::<EventView>::empty()).add(all_kept_contents(ts)) =~= all_kept_contents(ts));
}

/// The queues left when track `i` has taken `heads[i]` events.
pub open spec fn queues_at(tv: Seq<Seq<EventView>>, heads: Seq<usize>) -> Seq<Seq<EventView>> {
    Seq::new(tv.len(), |i: int| tv[i].skip(heads[i] as int))
}

/// The waits as integers.
pub open spec fn waits_at(waits: Seq<usize>) -> Seq<int> {
    Seq::new(waits.len(), |i: int| waits[i] as int)
}

impl MidiInfo {
    /// The format 0 version of this file: one track holding the events of
    /// all tracks in the order in which they are due, each with the ticks
    /// since the event taken before it, and without end-of-track events.
    pub fn convert_to_format0(&self) -> (r: MidiInfo)
        requires
            forall|i: int| 0 <= i < self@.tracks.len() ==> #[trigger] self@.tracks[i].len() > 0,
            forall|i: int, j: int|
                0 <= i < self@.tracks.len() && 0 <= j < self@.tracks[i].len() ==> eot_readable(
                    #[trigger] self@.tracks[i][j],
                ),
        ensures
            r.header == (MidiHeader {
                format: Format::Format0,
                time_unit: self.header.time_unit,
                tracks: 1,
            }),
            r@.tracks.len() == 1,
            r@.tracks[0] == format0_events(self@.tracks),
    {
        let ghost tv = self@.tracks;
        let n = self.tracks.len();
        let mut heads: Vec<usize> = Vec::new();
        let mut waits: Vec<usize> = Vec::new();
        let mut i: usize = 0;
        while i < n
            invariant
                i <= n,
                n == tv.len(),
                tv == self@.tracks,
                heads@.len() == i,
                waits@.len() == i,
                forall|j: int| 0 <= j < i ==> heads@[j] == 0,
                forall|j: int| 0 <= j < i ==> waits@[j] == tv[j][0].delta_time,
                forall|j: int| 0 <= j < tv.len() ==> #[trigger] tv[j].len() > 0,
            decreases n - i,
        {
            assert(tv[i as int].len() > 0);
            assert(tv[i as int][0] == self.tracks[i as int][0]@);
            heads.push(0);
            waits.push(self.tracks[i][0].delta_time);
            i += 1;
        }
        assert forall|j: int| 0 <= j < tv.len() implies queues_at(tv, heads@)[j] == tv[j] by {
            assert(tv[j].skip(0) =~= tv[j]);
        }
        assert(queues_at(tv, heads@) =~= tv);
        assert(waits_at(waits@) =~= Seq::new(tv.len(), |i: int| tv[i][0].delta_time as int));
        let mut track: Vec<MidiEvent> = Vec::new();
        assert(events_view(track@) =~= seq![]);
        loop
            invariant
                n == tv.len(),
                tv == self@.tracks,
                heads@.len() == n,
                waits@.len() == n,
                forall|j: int| 0 <= j < n ==> heads@[j] <= tv[j].len(),
                forall|i: int, j: int|
                    0 <= i < tv.len() && 0 <= j < tv[i].len() ==> eot_readable(#[trigger] tv[i][j]),
                merge_from(queues_at(tv, heads@), waits_at(waits@), events_view(track@))
                    == format0_events(tv),
            ensures
                events_view(track@) == format0_events(tv),
            decreases total_len(queues_at(tv, heads@)),
        {
            let ghost qs = queues_at(tv, heads@);
            let ghost ws = waits_at(waits@);
            let mut best: Option<usize> = None;
            let mut i: usize = 0;
            while i < n
                invariant
                    i <= n,
                    n == tv.len(),
                    tv == self@.tracks,
                    heads@.len() == n,
                    waits@.len() == n,
                    qs == queues_at(tv, heads@),
                    ws == waits_at(waits@),
                    forall|j: int| 0 <= j < n ==> heads@[j] <= tv[j].len(),
                    best matches Some(b) ==> b < n && qs[b as int].len() > 0,
                    first_due(qs, ws, i as nat, match best {
                        Some(b) => Some(b as nat),
                        None => None,
                    }) == first_due(qs, ws, 0, None),
                decreases n - i,
            {
                assert(qs[i as int].len() == tv[i as int].len() - heads@[i as int]);
                if heads[i] < self.tracks[i].len() {
                    match best {
                        None => {
                            best = Some(i);
                        },
                        Some(b) => {
                            if waits[i] < waits[b] {
                                best = Some(i);
                            }
                        },
                    }
                }
                i += 1;
            }
            let k = match best {
                None => {
                    break;
                },
                Some(k) => k,
            };
            proof {
                lemma_first_due(qs, ws, 0, None);
                lemma_total_len_take(qs, k as int);
            }
            let d = waits[k];
            let h = heads[k];
            let klen = self.tracks[k].len();
            assert(tv[k as int].len() == klen);
            assert(qs[k as int].len() == tv[k as int].len() - h);
            let e = &self.tracks[k][h];
            assert(qs[k as int][0] == e@);
            assert(eot_readable(tv[k as int][h as int]));
            let ghost old_view = events_view(track@);
            if !e.is_end_of_track() {
                let copy = e.duplicate();
                track.push(MidiEvent { delta_time: d, ch: copy.ch, status_byte: copy.status_byte, data: copy.data });
                assert(events_view(track@) =~= old_view.push(with_delta(qs[k as int][0], d as int)));
            }
            let mut new_waits: Vec<usize> = Vec::new();
            let mut j: usize = 0;
            while j < n
                invariant
                    j <= n,
                    n == tv.len(),
                    tv == self@.tracks,
                    heads@.len() == n,
                    waits@.len() == n,
                    k < n,
                    h == heads@[k as int],
                    h < tv[k as int].len(),
                    tv[k as int].len() == klen,
                    klen == self.tracks@[k as int]@.len(),
                    d == waits@[k as int],
                    qs == queues_at(tv, heads@),
                    ws == waits_at(waits@),
                    new_waits@.len() == j,
                    forall|m: int| 0 <= m < j ==> new_waits@[m] as int == next_waits(qs, ws, k as int, d as int)[m],
                decreases n - j,
            {
                if j == k {
                    if h + 1 < klen {
                        assert(qs[k as int][1] == self.tracks[k as int][h + 1]@);
                        new_waits.push(self.tracks[k][h + 1].delta_time);
                    } else {
                        new_waits.push(0);
                    }
                } else {
                    new_waits.push(waits[j].saturating_sub(d));
                }
                j += 1;
            }
            heads.set(k, h + 1);
            waits = new_waits;
            assert forall|m: int| 0 <= m < n implies queues_at(tv, heads@)[m] == qs.update(
                k as int,
                qs[k as int].drop_first(),
            )[m] by {
                if m == k {
                    assert(tv[m].skip(h + 1) =~= tv[m].skip(h as int).drop_first());
                }
            }
            assert(queues_at(tv, heads@) =~= qs.update(k as int, qs[k as int].drop_first()));
            assert(waits_at(waits@) =~= next_waits(qs, ws, k as int, d as int));
        }
        let mut tracks: Vec<Vec<MidiEvent>> = Vec::new();
        tracks.push(track);
        let r = MidiInfo {
            header: MidiHeader { format: Format::Format0, time_unit: self.header.time_unit, tracks: 1 },
            tracks,
        };
        assert(r@.tracks =~= seq![events_view(track@)]);
        r
    }
}

} // verus!
