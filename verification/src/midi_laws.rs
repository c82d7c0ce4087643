//! What holds of every note scan, whatever the file.
use vstd::prelude::*;

use crate::layout::in_black_table;
use crate::midi::{
    close_note, extracted_notes, final_scan, initial_scan, scan_events, scan_tracks, step, weight, MidiEvent,
    MidiEventKind, MidiModel, NoteSpan, Scan,
};

verus! {

/// The key-and-colour invariant of the scan.
pub open spec fn keys_ok(s: Scan) -> bool {
    &&& s.active.len() == 128
    &&& forall|k: int| 0 <= k < 128 && #[trigger] s.active[k] is Some ==> 20 < k < 109
    &&& forall|i: int|
        0 <= i < s.whites.len() ==> 20 < (#[trigger] s.whites[i]).key < 109 && !in_black_table(
            s.whites[i].key,
        )
    &&& forall|i: int|
        0 <= i < s.blacks.len() ==> 20 < (#[trigger] s.blacks[i]).key < 109 && in_black_table(
            s.blacks[i].key,
        )
}

/// The time-order invariant of the scan inside one track.
pub open spec fn times_ok(s: Scan) -> bool {
    &&& s.time >= 0
    &&& s.tempo >= 0
    &&& forall|k: int|
        0 <= k < s.active.len() && #[trigger] s.active[k] is Some ==> 0 <= s.active[k]->0
            <= s.time
    &&& forall|i: int| 0 <= i < s.whites.len() ==> (#[trigger] s.whites[i]).start <= s.whites[i].end
    &&& forall|i: int| 0 <= i < s.blacks.len() ==> (#[trigger] s.blacks[i]).start <= s.blacks[i].end
}

proof fn lemma_step_keys(s: Scan, e: MidiEvent, aware: bool)
    requires
        keys_ok(s),
        e.wf(),
    ensures
        keys_ok(step(s, e, aware)),
{
    let r = step(s, e, aware);
    match e.kind {
        MidiEventKind::NoteOn(key, vel) => {
            if 20 < key && key < 109 && vel > 0 {
                assert forall|k: int| 0 <= k < 128 && #[trigger] r.active[k] is Some implies 20 < k
                    < 109 by {
                    if k != key as int {
                        assert(r.active[k] == s.active[k]);
                    }
                }
            }
        },
        _ => {},
    }
}

proof fn lemma_step_times(s: Scan, e: MidiEvent, aware: bool)
    requires
        times_ok(s),
        s.active.len() == 128,
        e.wf(),
    ensures
        times_ok(step(s, e, aware)),
{
    let w = weight(s, aware);
    assert(e.delta * w >= 0) by (nonlinear_arith)
        requires
            w >= 0,
    ;
    let r = step(s, e, aware);
    match e.kind {
        MidiEventKind::NoteOn(key, vel) => {
            if 20 < key && key < 109 && vel > 0 {
                assert forall|k: int|
                    0 <= k < r.active.len() && #[trigger] r.active[k] is Some implies 0
                    <= r.active[k]->0 <= r.time by {
                    if k != key as int {
                        assert(r.active[k] == s.active[k]);
                    }
                }
            }
        },
        _ => {},
    }
}

proof fn lemma_events_keys(s: Scan, evs: Seq<MidiEvent>, aware: bool)
    requires
        keys_ok(s),
        forall|i: int| 0 <= i < evs.len() ==> (#[trigger] evs[i]).wf(),
    ensures
        keys_ok(scan_events(s, evs, aware)),
    decreases evs.len(),
{
    if evs.len() > 0 {
        lemma_events_keys(s, evs.drop_last(), aware);
        lemma_step_keys(scan_events(s, evs.drop_last(), aware), evs.last(), aware);
    }
}

proof fn lemma_events_times(s: Scan, evs: Seq<MidiEvent>, aware: bool)
    requires
        times_ok(s),
        keys_ok(s),
        forall|i: int| 0 <= i < evs.len() ==> (#[trigger] evs[i]).wf(),
    ensures
        times_ok(scan_events(s, evs, aware)),
    decreases evs.len(),
{
    if evs.len() > 0 {
        lemma_events_times(s, evs.drop_last(), aware);
        lemma_events_keys(s, evs.drop_last(), aware);
        lemma_step_times(scan_events(s, evs.drop_last(), aware), evs.last(), aware);
    }
}

proof fn lemma_tracks_keys(tracks: Seq<Seq<MidiEvent>>, aware: bool)
    requires
        forall|t: int, i: int|
            0 <= t < tracks.len() && 0 <= i < tracks[t].len() ==> (#[trigger] tracks[t][i]).wf(),
    ensures
        keys_ok(scan_tracks(initial_scan(), tracks, aware)),
    decreases tracks.len(),
{
    if tracks.len() == 0 {
        let s = initial_scan();
        assert forall|k: int| 0 <= k < 128 && #[trigger] s.active[k] is Some implies 20 < k < 109 by {}
    } else {
        let front = tracks.drop_last();
        assert forall|t: int, i: int|
            0 <= t < front.len() && 0 <= i < front[t].len() implies (#[trigger] front[t][i]).wf() by {
            assert(front[t] == tracks[t]);
        }
        lemma_tracks_keys(front, aware);
        let before = scan_tracks(initial_scan(), front, aware);
        let last = tracks.last();
        assert forall|i: int| 0 <= i < last.len() implies (#[trigger] last[i]).wf() by {
            assert(tracks[tracks.len() - 1][i] == last[i]);
        }
        lemma_events_keys(Scan { time: 0, ..before }, last, aware);
    }
}

/// Every note that the scan yields lies on the piano: its key is in 21..=108.
pub proof fn law_note_keys_on_piano(m: MidiModel, tempo_aware: bool)
    requires
        m.wf(),
    ensures
        forall|i: int|
            0 <= i < extracted_notes(m, tempo_aware).len() ==> 21 <= (#[trigger] extracted_notes(
                m,
                tempo_aware,
            )[i]).key <= 108,
{
    lemma_tracks_keys(m.tracks, tempo_aware);
    let s = final_scan(m, tempo_aware);
    assert forall|i: int| 0 <= i < extracted_notes(m, tempo_aware).len() implies 21 <= (
    #[trigger] extracted_notes(m, tempo_aware)[i]).key <= 108 by {
        if i >= s.whites.len() {
            assert(extracted_notes(m, tempo_aware)[i] == s.blacks[i - s.whites.len()]);
        }
    }
}

/// The notes whose key is not in the black table all come before those whose key is:
/// once a black-table note appears, every later note is one too.
pub proof fn law_white_notes_first(m: MidiModel, tempo_aware: bool)
    requires
        m.wf(),
    ensures
        forall|i: int, j: int|
            0 <= i < j < extracted_notes(m, tempo_aware).len() && in_black_table(
                #[trigger] extracted_notes(m, tempo_aware)[i].key,
            ) ==> in_black_table(#[trigger] extracted_notes(m, tempo_aware)[j].key),
{
    lemma_tracks_keys(m.tracks, tempo_aware);
    let s = final_scan(m, tempo_aware);
    let n = extracted_notes(m, tempo_aware);
    assert forall|i: int, j: int|
        0 <= i < j < n.len() && in_black_table(#[trigger] n[i].key) implies in_black_table(
        #[trigger] n[j].key,
    ) by {
        if i < s.whites.len() {
            assert(n[i] == s.whites[i]);
        }
        assert(n[j] == s.blacks[j - s.whites.len()]);
    }
}

/// In a file of one track, no note ends before it starts.
pub proof fn law_single_track_notes_in_order(m: MidiModel, tempo_aware: bool)
    requires
        m.wf(),
        m.tracks.len() == 1,
    ensures
        forall|i: int|
            0 <= i < extracted_notes(m, tempo_aware).len() ==> (#[trigger] extracted_notes(
                m,
                tempo_aware,
            )[i]).start <= extracted_notes(m, tempo_aware)[i].end,
{
    let init = initial_scan();
    assert(m.tracks.drop_last() =~= Seq::<Seq<MidiEvent>>::empty());
    let start = Scan { time: 0, ..init };
    assert forall|k: int| 0 <= k < 128 && #[trigger] start.active[k] is Some implies 20 < k
        < 109 by {}
    let track = m.tracks.last();
    assert forall|i: int| 0 <= i < track.len() implies (#[trigger] track[i]).wf() by {
        assert(m.tracks[0][i] == track[i]);
    }
    lemma_events_times(start, track, tempo_aware);
    assert(scan_tracks(init, m.tracks.drop_last(), tempo_aware) == init);
    let s = final_scan(m, tempo_aware);
    assert(s == scan_events(start, track, tempo_aware));
    let n = extracted_notes(m, tempo_aware);
    assert forall|i: int| 0 <= i < n.len() implies (#[trigger] n[i]).start <= n[i].end by {
        if i >= s.whites.len() {
            assert(n[i] == s.blacks[i - s.whites.len()]);
        }
    }
}

/// Whether an event starts a note: a note-on with a key in 21..=108 and velocity above 0.
pub open spec fn starts_note(e: MidiEvent) -> bool {
    e.kind matches MidiEventKind::NoteOn(key, vel) && 20 < key && key < 109 && vel > 0
}

/// The number of events of a track that start a note.
pub open spec fn start_count(evs: Seq<MidiEvent>) -> nat
    decreases evs.len(),
{
    if evs.len() == 0 {
        0
    } else {
        start_count(evs.drop_last()) + if starts_note(evs.last()) {
            1nat
        } else {
            0
        }
    }
}

/// The number of events of a file that start a note.
pub open spec fn file_start_count(tracks: Seq<Seq<MidiEvent>>) -> nat
    decreases tracks.len(),
{
    if tracks.len() == 0 {
        0
    } else {
        file_start_count(tracks.drop_last()) + start_count(tracks.last())
    }
}

/// The number of keys on which a note sounds.
pub open spec fn sounding(a: Seq<Option<int>>) -> nat
    decreases a.len(),
{
    if a.len() == 0 {
        0
    } else {
        sounding(a.drop_last()) + if a.last() is Some {
            1nat
        } else {
            0
        }
    }
}

proof fn lemma_sounding_update(a: Seq<Option<int>>, k: int, v: Option<int>)
    requires
        0 <= k < a.len(),
    ensures
        sounding(a.update(k, v)) + (if a[k] is Some {
            1int
        } else {
            0
        }) == sounding(a) + (if v is Some {
            1int
        } else {
            0
        }),
    decreases a.len(),
{
    let b = a.update(k, v);
    if k == a.len() - 1 {
        assert(b.drop_last() =~= a.drop_last());
    } else {
        lemma_sounding_update(a.drop_last(), k, v);
        assert(b.drop_last() =~= a.drop_last().update(k, v));
    }
}

pub open spec fn counted(s: Scan, starts: nat) -> bool {
    s.whites.len() + s.blacks.len() + sounding(s.active) <= starts
}

proof fn lemma_step_count(s: Scan, e: MidiEvent, aware: bool, starts: nat)
    requires
        counted(s, starts),
        s.active.len() == 128,
        e.wf(),
    ensures
        counted(step(s, e, aware), starts + if starts_note(e) {
            1nat
        } else {
            0
        }),
        step(s, e, aware).active.len() == 128,
{
    let t = Scan { time: s.time + e.delta * weight(s, aware), ..s };
    match e.kind {
        MidiEventKind::NoteOn(key, vel) => {
            if 20 < key && key < 109 {
                if vel > 0 {
                    lemma_sounding_update(t.active, key as int, Some(t.time));
                } else if t.active[key as int] is Some {
                    lemma_sounding_update(t.active, key as int, None);
                }
            }
        },
        MidiEventKind::NoteOff(key) => {
            if t.active[key as int] is Some {
                lemma_sounding_update(t.active, key as int, None);
            }
        },
        _ => {},
    }
}

proof fn lemma_events_count(s: Scan, evs: Seq<MidiEvent>, aware: bool, starts: nat)
    requires
        counted(s, starts),
        s.active.len() == 128,
        forall|i: int| 0 <= i < evs.len() ==> (#[trigger] evs[i]).wf(),
    ensures
        counted(scan_events(s, evs, aware), starts + start_count(evs)),
        scan_events(s, evs, aware).active.len() == 128,
    decreases evs.len(),
{
    if evs.len() > 0 {
        lemma_events_count(s, evs.drop_last(), aware, starts);
        lemma_step_count(
            scan_events(s, evs.drop_last(), aware),
            evs.last(),
            aware,
            starts + start_count(evs.drop_last()),
        );
    }
}

proof fn lemma_tracks_count(tracks: Seq<Seq<MidiEvent>>, aware: bool)
    requires
        forall|t: int, i: int|
            0 <= t < tracks.len() && 0 <= i < tracks[t].len() ==> (#[trigger] tracks[t][i]).wf(),
    ensures
        counted(scan_tracks(initial_scan(), tracks, aware), file_start_count(tracks)),
        scan_tracks(initial_scan(), tracks, aware).active.len() == 128,
    decreases tracks.len(),
{
    if tracks.len() == 0 {
        let a = initial_scan().active;
        assert forall|n: nat| n <= 128 implies sounding(#[trigger] a.take(n as int)) == 0 by {
            lemma_no_sounding(a, n);
        }
        assert(a.take(128) =~= a);
    } else {
        let front = tracks.drop_last();
        assert forall|t: int, i: int|
            0 <= t < front.len() && 0 <= i < front[t].len() implies (#[trigger] front[t][i]).wf() by {
            assert(front[t] == tracks[t]);
        }
        lemma_tracks_count(front, aware);
        let before = scan_tracks(initial_scan(), front, aware);
        let last = tracks.last();
        assert forall|i: int| 0 <= i < last.len() implies (#[trigger] last[i]).wf() by {
            assert(tracks[tracks.len() - 1][i] == last[i]);
        }
        lemma_events_count(Scan { time: 0, ..before }, last, aware, file_start_count(front));
    }
}

proof fn lemma_no_sounding(a: Seq<Option<int>>, n: nat)
    requires
        n <= a.len(),
        forall|i: int| 0 <= i < a.len() ==> a[i] is None,
    ensures
        sounding(a.take(n as int)) == 0,
    decreases n,
{
    if n > 0 {
        lemma_no_sounding(a, (n - 1) as nat);
        assert(a.take(n as int).drop_last() =~= a.take(n - 1));
    }
}

/// A file yields no more notes than it has events that start one (note-ons with a key
/// in 21..=108 and a velocity above 0): a note-on that replaces a sounding note, and a
/// note that never ends, yield none.
pub proof fn law_notes_at_most_starts(m: MidiModel, tempo_aware: bool)
    requires
        m.wf(),
    ensures
        extracted_notes(m, tempo_aware).len() <= file_start_count(m.tracks),
{
    lemma_tracks_count(m.tracks, tempo_aware);
}

/// The clock of a run of events started at tempo `t0`: the weighted ticks it covers and
/// the tempo in force after it. Every event, whatever its kind, counts its delta at the
/// tempo in force before it (at weight 1 when the scan ignores tempo); only a tempo event
/// changes the tempo.
pub open spec fn clock(evs: Seq<MidiEvent>, t0: int, tempo_aware: bool) -> (int, int)
    decreases evs.len(),
{
    if evs.len() == 0 {
        (0, t0)
    } else {
        let (ticks, t) = clock(evs.drop_last(), t0, tempo_aware);
        let e = evs.last();
        let w = if tempo_aware {
            t
        } else {
            1
        };
        let next = match e.kind {
            MidiEventKind::Tempo(micros) => micros as int,
            _ => t,
        };
        (ticks + e.delta * w, next)
    }
}

/// The tempo in force after a run of tracks, started at tempo `t0`: the tempo carries over
/// from each track to the next.
pub open spec fn tempo_after(tracks: Seq<Seq<MidiEvent>>, t0: int) -> int
    decreases tracks.len(),
{
    if tracks.len() == 0 {
        t0
    } else {
        clock(tracks.last(), tempo_after(tracks.drop_last(), t0), true).1
    }
}

/// Every event advances the clock by its delta times the weight in force before it,
/// whatever its kind; a tempo event sets the tempo, and no other event (end of track
/// included) changes it.
pub proof fn law_every_event_advances_the_clock(s: Scan, e: MidiEvent, tempo_aware: bool)
    ensures
        step(s, e, tempo_aware).time == s.time + e.delta * (if tempo_aware {
            s.tempo
        } else {
            1
        }),
        step(s, e, tempo_aware).tempo == (match e.kind {
            MidiEventKind::Tempo(micros) => micros as int,
            _ => s.tempo,
        }),
{
}

/// The key whose note an event ends: a note-off, or a note-on of velocity 0 with a key on
/// the piano.
pub open spec fn ended_key(e: MidiEvent) -> Option<u8> {
    match e.kind {
        MidiEventKind::NoteOff(key) => Some(key),
        MidiEventKind::NoteOn(key, vel) => if 20 < key < 109 && vel == 0 {
            Some(key)
        } else {
            None
        },
        _ => None,
    }
}

/// From `s` to `t`, the note `n` finished: its key no longer sounds, and `n` was added once
/// to the black notes if its key is in the black table, else to the white notes.
pub open spec fn finished(s: Scan, t: Scan, n: NoteSpan) -> bool {
    &&& t.active[n.key as int] is None
    &&& in_black_table(n.key) ==> t.blacks == s.blacks.push(n) && t.whites == s.whites
    &&& !in_black_table(n.key) ==> t.whites == s.whites.push(n) && t.blacks == s.blacks
}

/// A note-on with a key on the piano and a velocity above 0 starts a note on its key at
/// the event's time; an event that ends the note on a key that sounds finishes that note,
/// from its start to the event's time.
pub proof fn law_notes_start_and_end_at_their_events(s: Scan, e: MidiEvent, tempo_aware: bool)
    requires
        s.active.len() == 128,
        e.wf(),
    ensures
        e.kind is NoteOn && 20 < e.kind->NoteOn_0 < 109 && e.kind->NoteOn_1 > 0 ==> {
            let t = step(s, e, tempo_aware);
            &&& t.active[e.kind->NoteOn_0 as int] == Some(t.time)
            &&& t.whites == s.whites
            &&& t.blacks == s.blacks
        },
        ended_key(e) is Some && s.active[ended_key(e)->0 as int] is Some ==> {
            let key = ended_key(e)->0;
            let t = step(s, e, tempo_aware);
            finished(s, t, NoteSpan { key, start: s.active[key as int]->0, end: t.time })
        },
{
    if ended_key(e) is Some {
        let key = ended_key(e)->0;
        let t = step(s, e, tempo_aware);
        let s1 = Scan { time: s.time + e.delta * weight(s, tempo_aware), ..s };
        assert(t == close_note(s1, key));
        assert(s1.active[key as int] == s.active[key as int]);
    }
}

/// An end of track marks the end time at its own time; no other event changes it.
/// Events that neither start nor end a note (tempo, end of track, note-ons with a key off
/// the piano, and all other kinds) leave the sounding and the finished notes as they are.
pub proof fn law_events_that_touch_no_note(s: Scan, e: MidiEvent, tempo_aware: bool)
    ensures
        e.kind is EndOfTrack ==> step(s, e, tempo_aware).end == Some(step(s, e, tempo_aware).time),
        !(e.kind is EndOfTrack) ==> step(s, e, tempo_aware).end == s.end,
        ended_key(e) is None && !starts_note(e) ==> {
            let t = step(s, e, tempo_aware);
            &&& t.active == s.active
            &&& t.whites == s.whites
            &&& t.blacks == s.blacks
        },
{
}

/// An event that ends the note on a key where none sounds changes no note.
pub proof fn law_ending_a_silent_key_changes_nothing(s: Scan, e: MidiEvent, tempo_aware: bool)
    requires
        ended_key(e) is Some,
        s.active[ended_key(e)->0 as int] is None,
    ensures
        step(s, e, tempo_aware).active == s.active,
        step(s, e, tempo_aware).whites == s.whites,
        step(s, e, tempo_aware).blacks == s.blacks,
{
}

/// Scanning a track moves its clock by the weighted ticks of all its events and leaves
/// in force the tempo of its last tempo event (the incoming tempo if it has none).
pub proof fn law_track_clock(s: Scan, evs: Seq<MidiEvent>, tempo_aware: bool)
    ensures
        scan_events(s, evs, tempo_aware).time == s.time + clock(evs, s.tempo, tempo_aware).0,
        scan_events(s, evs, tempo_aware).tempo == clock(evs, s.tempo, tempo_aware).1,
    decreases evs.len(),
{
    if evs.len() > 0 {
        law_track_clock(s, evs.drop_last(), tempo_aware);
        law_every_event_advances_the_clock(
            scan_events(s, evs.drop_last(), tempo_aware),
            evs.last(),
            tempo_aware,
        );
    }
}

/// The tempo carries over the tracks: each track starts with the tempo in force at the end
/// of the one before it, and an end of track does not reset it.
pub proof fn law_tempo_carries_over_tracks(s: Scan, tracks: Seq<Seq<MidiEvent>>, tempo_aware: bool)
    ensures
        scan_tracks(s, tracks, tempo_aware).tempo == tempo_after(tracks, s.tempo),
    decreases tracks.len(),
{
    if tracks.len() > 0 {
        law_tempo_carries_over_tracks(s, tracks.drop_last(), tempo_aware);
        let before = scan_tracks(s, tracks.drop_last(), tempo_aware);
        law_track_clock(Scan { time: 0, ..before }, tracks.last(), tempo_aware);
        lemma_clock_tempo_ignores_weighting(tracks.last(), before.tempo, tempo_aware);
    }
}

proof fn lemma_clock_tempo_ignores_weighting(evs: Seq<MidiEvent>, t0: int, tempo_aware: bool)
    ensures
        clock(evs, t0, tempo_aware).1 == clock(evs, t0, true).1,
    decreases evs.len(),
{
    if evs.len() > 0 {
        lemma_clock_tempo_ignores_weighting(evs.drop_last(), t0, tempo_aware);
    }
}

/// In a tempo-aware scan each track runs for its ticks weighted by the tempo in force:
/// the clock of the last track of a file, started at 0 with the tempo left by the tracks
/// before it, is where that track ends.
pub proof fn law_last_track_runs_at_the_carried_tempo(m: MidiModel)
    requires
        m.tracks.len() > 0,
    ensures
        final_scan(m, true).time == clock(
            m.tracks.last(),
            tempo_after(m.tracks.drop_last(), 500_000),
            true,
        ).0,
{
    let before = scan_tracks(initial_scan(), m.tracks.drop_last(), true);
    law_tempo_carries_over_tracks(initial_scan(), m.tracks.drop_last(), true);
    law_track_clock(Scan { time: 0, ..before }, m.tracks.last(), true);
}

} // verus!
