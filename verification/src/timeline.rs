//! The merged timeline: an ordered mapping from absolute tick to the events
//! occurring at that tick, built by folding every track's delta-timed events
//! into a sorted sequence of tick groups. Events that land on the same tick
//! keep the order of their originating track, then their intra-track order.

use vstd::prelude::*;

use crate::events::MidiEvent;

verus! {

/// The timeline's mathematical model: tick groups in ascending tick order.
pub type TimelineView = Seq<(u64, Seq<MidiEvent>)>;

/// One delta-timed event as decoded from a track: the tick delta since the
/// previous event of the same track, and the event itself.
#[derive(Clone, Copy, Debug)]
pub struct DeltaEvent {
    pub delta: u32,
    pub event: MidiEvent,
}

/// One tick group: every event occurring at one absolute tick, in order.
#[derive(Clone, Debug)]
pub struct TimelineEntry {
    pub tick: u64,
    pub events: Vec<MidiEvent>,
}

/// The model of a sequence of tick groups.
pub open spec fn entries_view(s: Seq<TimelineEntry>) -> TimelineView {
    Seq::new(s.len(), |i: int| (s[i].tick, s[i].events@))
}

/// The merged event timeline, ascending by tick.
#[derive(Clone, Debug)]
pub struct Timeline {
    pub entries: Vec<TimelineEntry>,
}

/// Ticks are unique and strictly ascending.
pub open spec fn ticks_sorted(tl: TimelineView) -> bool {
    forall|i: int, j: int| 0 <= i < j < tl.len() ==> tl[i].0 < tl[j].0
}

/// Every event in every tick group is well-formed.
pub open spec fn events_wf(tl: TimelineView) -> bool {
    forall|i: int, j: int|
        0 <= i < tl.len() && 0 <= j < tl[i].1.len() ==> (#[trigger] tl[i].1[j]).wf()
}

impl View for Timeline {
    type V = TimelineView;

    open spec fn view(&self) -> TimelineView {
        entries_view(self.entries@)
    }
}

impl Timeline {
    /// A usable timeline: tick groups strictly ascending, events in range.
    pub open spec fn wf(&self) -> bool {
        ticks_sorted(self@) && events_wf(self@)
    }
}

/// Record one event under its absolute tick: append it to the group at tick
/// `t` if one exists, otherwise create the group at its sorted position.
pub open spec fn timeline_insert(tl: TimelineView, t: u64, e: MidiEvent) -> TimelineView
    decreases tl.len(),
{
    if tl.len() == 0 {
        seq![(t, seq![e])]
    } else if t < tl[0].0 {
        seq![(t, seq![e])] + tl
    } else if t == tl[0].0 {
        seq![(tl[0].0, tl[0].1.push(e))] + tl.drop_first()
    } else {
        seq![tl[0]] + timeline_insert(tl.drop_first(), t, e)
    }
}

/// Whether some tick group of `tl` sits at tick `x`.
pub open spec fn tick_in(tl: TimelineView, x: u64) -> bool {
    exists|j: int| 0 <= j < tl.len() && tl[j].0 == x
}

/// Inserting keeps ticks sorted, introduces no tick but `t`, and keeps
/// every event well-formed when the inserted one is.
proof fn lemma_insert_keeps_wf(tl: TimelineView, t: u64, e: MidiEvent)
    requires
        ticks_sorted(tl),
    ensures
        ticks_sorted(timeline_insert(tl, t, e)),
        forall|i: int|
            0 <= i < timeline_insert(tl, t, e).len() ==> (#[trigger] timeline_insert(tl, t, e)[i].0)
                == t || tick_in(tl, timeline_insert(tl, t, e)[i].0),
        events_wf(tl) && e.wf() ==> events_wf(timeline_insert(tl, t, e)),
    decreases tl.len(),
{
    let r = timeline_insert(tl, t, e);
    if tl.len() == 0 {
    } else if t < tl[0].0 {
        assert forall|i: int| 0 <= i < r.len() implies (#[trigger] r[i].0) == t || tick_in(
            tl,
            r[i].0,
        ) by {
            if i > 0 {
                assert(tl[i - 1].0 == r[i].0);
            }
        }
    } else if t == tl[0].0 {
        assert forall|i: int| 0 <= i < r.len() implies (#[trigger] r[i].0) == t || tick_in(
            tl,
            r[i].0,
        ) by {
            if i > 0 {
                assert(tl[i].0 == r[i].0);
            }
        }
        if events_wf(tl) && e.wf() {
            assert forall|i: int, j: int|
                0 <= i < r.len() && 0 <= j < r[i].1.len() implies (#[trigger] r[i].1[j]).wf() by {
                if i == 0 {
                    if j < tl[0].1.len() {
                        assert(r[0].1[j] == tl[0].1[j]);
                    } else {
                        assert(r[0].1[j] == e);
                    }
                } else {
                    assert(r[i].1[j] == tl[i].1[j]);
                }
            }
        }
    } else {
        let rest = tl.drop_first();
        assert forall|i: int, j: int| 0 <= i < j < rest.len() implies rest[i].0 < rest[j].0 by {
            assert(tl[i + 1].0 < tl[j + 1].0);
        }
        lemma_insert_keeps_wf(rest, t, e);
        let sub = timeline_insert(rest, t, e);
        assert(r == seq![tl[0]] + sub);
        assert forall|i: int| 0 <= i < r.len() implies (#[trigger] r[i].0) == t || tick_in(
            tl,
            r[i].0,
        ) by {
            if i == 0 {
                assert(tl[0].0 == r[0].0);
            } else {
                assert(r[i] == sub[i - 1]);
                if sub[i - 1].0 != t {
                    let w = choose|k: int| 0 <= k < rest.len() && rest[k].0 == sub[i - 1].0;
                    assert(tl[w + 1].0 == sub[i - 1].0);
                }
            }
        }
        assert forall|i: int, j: int| 0 <= i < j < r.len() implies r[i].0 < r[j].0 by {
            if i == 0 {
                assert(r[j] == sub[j - 1]);
                if sub[j - 1].0 == t {
                } else {
                    let w = choose|k: int| 0 <= k < rest.len() && rest[k].0 == sub[j - 1].0;
                    assert(tl[0].0 < tl[w + 1].0);
                }
            } else {
                assert(r[i] == sub[i - 1] && r[j] == sub[j - 1]);
            }
        }
        if events_wf(tl) && e.wf() {
            assert forall|i: int, j: int|
                0 <= i < rest.len() && 0 <= j < rest[i].1.len() implies (
            #[trigger] rest[i].1[j]).wf() by {
                assert(tl[i + 1].1[j] == rest[i].1[j]);
            }
            assert forall|i: int, j: int|
                0 <= i < r.len() && 0 <= j < r[i].1.len() implies (#[trigger] r[i].1[j]).wf() by {
                if i == 0 {
                    assert(r[0].1[j] == tl[0].1[j]);
                } else {
                    assert(r[i].1[j] == sub[i - 1].1[j]);
                }
            }
        }
    }
}

/// Exec mirror of `timeline_insert`.
fn insert_event(entries: Vec<TimelineEntry>, t: u64, e: MidiEvent) -> (r: Vec<TimelineEntry>)
    ensures
        entries_view(r@) == timeline_insert(entries_view(entries@), t, e),
    decreases entries@.len(),
{
    let ghost tv = entries_view(entries@);
    if entries.len() == 0 {
        let mut evs: Vec<MidiEvent> = Vec::new();
        evs.push(e);
        let mut r: Vec<TimelineEntry> = Vec::new();
        r.push(TimelineEntry { tick: t, events: evs });
        proof {
            assert(entries_view(r@) =~~= timeline_insert(tv, t, e));
        }
        r
    } else if t < entries[0].tick {
        let mut evs: Vec<MidiEvent> = Vec::new();
        evs.push(e);
        let mut r = entries;
        r.insert(0, TimelineEntry { tick: t, events: evs });
        proof {
            assert(entries_view(r@) =~~= timeline_insert(tv, t, e));
        }
        r
    } else if t == entries[0].tick {
        let mut r = entries;
        let mut head = r.remove(0);
        head.events.push(e);
        r.insert(0, head);
        proof {
            assert(entries_view(r@) =~~= timeline_insert(tv, t, e));
        }
        r
    } else {
        let mut r = entries;
        let head = r.remove(0);
        proof {
            assert(entries_view(r@) =~~= tv.drop_first());
        }
        let mut rest = insert_event(r, t, e);
        rest.insert(0, head);
        proof {
            assert(entries_view(rest@) =~~= seq![tv[0]] + timeline_insert(tv.drop_first(), t, e));
        }
        rest
    }
}

/// The sum of a track's tick deltas.
pub open spec fn delta_sum(track: Seq<DeltaEvent>) -> int
    decreases track.len(),
{
    if track.len() == 0 {
        0
    } else {
        track[0].delta + delta_sum(track.drop_first())
    }
}

proof fn lemma_delta_sum_nonneg(track: Seq<DeltaEvent>)
    ensures
        delta_sum(track) >= 0,
    decreases track.len(),
{
    if track.len() > 0 {
        lemma_delta_sum_nonneg(track.drop_first());
    }
}

/// Fold one track into the timeline: each event's delta advances the running
/// absolute tick, and the event is recorded under the resulting tick.
pub open spec fn track_merge(tl: TimelineView, track: Seq<DeltaEvent>, time: u64) -> TimelineView
    decreases track.len(),
{
    if track.len() == 0 {
        tl
    } else {
        let t2 = (time + track[0].delta) as u64;
        track_merge(timeline_insert(tl, t2, track[0].event), track.drop_first(), t2)
    }
}

/// Fold every track into the timeline, in track order.
pub open spec fn merge_all(tl: TimelineView, tracks: Seq<Seq<DeltaEvent>>) -> TimelineView
    decreases tracks.len(),
{
    if tracks.len() == 0 {
        tl
    } else {
        merge_all(track_merge(tl, tracks[0], 0), tracks.drop_first())
    }
}

/// The model of a decoded track list.
pub open spec fn tracks_view(tracks: Seq<Vec<DeltaEvent>>) -> Seq<Seq<DeltaEvent>> {
    Seq::new(tracks.len(), |i: int| tracks[i]@)
}

/// The timeline the whole merge produces.
pub open spec fn merged_timeline(tracks: Seq<Seq<DeltaEvent>>) -> TimelineView {
    merge_all(Seq::empty(), tracks)
}

/// Every event carried by every track is well-formed.
pub open spec fn tracks_events_wf(tracks: Seq<Seq<DeltaEvent>>) -> bool {
    forall|i: int, j: int|
        0 <= i < tracks.len() && 0 <= j < tracks[i].len() ==> (
        #[trigger] tracks[i][j].event).wf()
}

proof fn lemma_track_merge_keeps_wf(tl: TimelineView, track: Seq<DeltaEvent>, time: u64)
    requires
        ticks_sorted(tl),
    ensures
        ticks_sorted(track_merge(tl, track, time)),
        events_wf(tl) && (forall|j: int|
            0 <= j < track.len() ==> (#[trigger] track[j].event).wf()) ==> events_wf(
            track_merge(tl, track, time),
        ),
    decreases track.len(),
{
    if track.len() > 0 {
        let t2 = (time + track[0].delta) as u64;
        lemma_insert_keeps_wf(tl, t2, track[0].event);
        lemma_track_merge_keeps_wf(
            timeline_insert(tl, t2, track[0].event),
            track.drop_first(),
            t2,
        );
        assert(forall|j: int|
            0 <= j < track.drop_first().len() ==> track.drop_first()[j] == track[j + 1]);
    }
}

proof fn lemma_merge_all_keeps_wf(tl: TimelineView, tracks: Seq<Seq<DeltaEvent>>)
    requires
        ticks_sorted(tl),
    ensures
        ticks_sorted(merge_all(tl, tracks)),
        events_wf(tl) && tracks_events_wf(tracks) ==> events_wf(merge_all(tl, tracks)),
    decreases tracks.len(),
{
    if tracks.len() > 0 {
        lemma_track_merge_keeps_wf(tl, tracks[0], 0);
        lemma_merge_all_keeps_wf(track_merge(tl, tracks[0], 0), tracks.drop_first());
        assert(forall|i: int|
            0 <= i < tracks.drop_first().len() ==> tracks.drop_first()[i] == tracks[i + 1]);
    }
}

/// Merge N delta-timed tracks into one time-ordered timeline. For each
/// track a running absolute-tick counter starts at 0; each event's delta is
/// added before the event is recorded under the resulting tick. Events on
/// the same tick keep track order, then intra-track order.
pub fn merge_tracks(tracks: &Vec<Vec<DeltaEvent>>) -> (r: Timeline)
    requires
        forall|i: int|
            0 <= i < tracks@.len() ==> delta_sum(#[trigger] tracks@[i]@) <= u64::MAX,
    ensures
        r@ == merged_timeline(tracks_view(tracks@)),
        ticks_sorted(r@),
        tracks_events_wf(tracks_view(tracks@)) ==> r.wf(),
{
    let ghost all = tracks_view(tracks@);
    let mut entries: Vec<TimelineEntry> = Vec::new();
    let n = tracks.len();
    proof {
        assert(entries_view(entries@) =~= Seq::<(u64, Seq<MidiEvent>)>::empty());
        assert(all.skip(0) =~= all);
    }
    for i in 0..n
        invariant
            n == tracks@.len(),
            forall|k: int|
                0 <= k < tracks@.len() ==> delta_sum(#[trigger] tracks@[k]@) <= u64::MAX,
            all == tracks_view(tracks@),
            merge_all(entries_view(entries@), all.skip(i as int)) == merge_all(Seq::empty(), all),
    {
        let track = &tracks[i];
        let m = track.len();
        let mut time: u64 = 0;
        let ghost tv_in = entries_view(entries@);
        proof {
            assert(delta_sum(tracks@[i as int]@) <= u64::MAX);
            lemma_delta_sum_nonneg(track@);
            assert(track@.skip(0) =~= track@);
        }
        for j in 0..m
            invariant
                m == track@.len(),
                track@ == tracks@[i as int]@,
                delta_sum(track@) <= u64::MAX,
                time + delta_sum(track@.skip(j as int)) <= u64::MAX,
                track_merge(entries_view(entries@), track@.skip(j as int), time) == track_merge(
                    tv_in,
                    track@,
                    0,
                ),
        {
            let ghost pre = entries_view(entries@);
            let ghost sfx = track@.skip(j as int);
            proof {
                assert(sfx[0] == track@[j as int]);
                assert(sfx.drop_first() =~= track@.skip(j as int + 1));
                lemma_delta_sum_nonneg(sfx.drop_first());
            }
            let d = track[j].delta;
            let ev = track[j].event;
            let ghost told = time;
            time = time + d as u64;
            entries = insert_event(entries, time, ev);
            proof {
                assert(track_merge(pre, sfx, told) == track_merge(
                    entries_view(entries@),
                    track@.skip(j as int + 1),
                    time,
                ));
            }
        }
        proof {
            assert(track@.skip(m as int) =~= Seq::<DeltaEvent>::empty());
            assert(all.skip(i as int)[0] == track@);
            assert(all.skip(i as int).drop_first() =~= all.skip(i as int + 1));
        }
    }
    proof {
        assert(all.skip(n as int) =~= Seq::<Seq<DeltaEvent>>::empty());
        lemma_merge_all_keeps_wf(Seq::empty(), all);
    }
    Timeline { entries }
}

} // verus!
