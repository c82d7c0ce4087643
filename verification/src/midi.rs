//! The MIDI side of the library: a plain model of a Standard MIDI File, the parse
//! through `midly`, and the scan that pairs note-on and note-off events into notes.
//!
//! Times are kept exact. Inside a track, an event happens at the sum, over the events
//! before it and itself, of `delta * weight`, where the weight is the tempo in force
//! (microseconds per beat) when the scan is tempo-aware, and 1 otherwise. A
//! `TimeScale` then turns such a weighted time into seconds.
use vstd::prelude::*;
use midly::MetaMessage::{EndOfTrack as SmfEnd, Tempo as SmfTempo};
use midly::MidiMessage::{NoteOff as Off, NoteOn as On};
use midly::Smf;
use midly::Timing::{Metrical as SmfMetrical, Timecode as SmfTimecode};
use midly::TrackEventKind::{Meta, Midi};

use crate::layout::{black_contains, in_black_table};
use crate::smf_chunks::division_overflows;
use self::MidiEventKind::{EndOfTrack, NoteOff, NoteOn, Other, Tempo};
use self::MidiTiming::{Metrical, Timecode};

verus! {

/// The largest weighted time that one event can add: a 28-bit delta times a 24-bit tempo.
pub open spec fn max_step() -> int {
    0x10_0000_0000_0000
}

/// The tempo in force before any tempo event: 500000 microseconds per beat (120 bpm).
pub const DEFAULT_TEMPO: u32 = 500000;

/// How the header of a MIDI file measures time.
#[derive(Clone, Copy, Debug, PartialEq, Eq)]
pub enum MidiTiming {
    /// Ticks per beat (a 15-bit number).
    Metrical(u16),
    /// Frames per second (24, 25, 29 for 30 / 1.001, or 30) and ticks per frame.
    Timecode(u8, u8),
}

/// What a track event does, as far as the note scan cares.
#[derive(Clone, Copy, Debug, PartialEq, Eq)]
pub enum MidiEventKind {
    /// Key and velocity.
    NoteOn(u8, u8),
    /// Key.
    NoteOff(u8),
    /// Microseconds per beat.
    Tempo(u32),
    EndOfTrack,
    Other,
}

/// One track event: the ticks since the previous event, and its kind.
#[derive(Clone, Copy, Debug, PartialEq, Eq)]
pub struct MidiEvent {
    pub delta: u32,
    pub kind: MidiEventKind,
}

impl MidiEvent {
    /// The ranges that the MIDI format gives each field.
    pub open spec fn wf(self) -> bool {
        &&& self.delta < 0x1000_0000
        &&& match self.kind {
            MidiEventKind::NoteOn(key, vel) => key < 128 && vel < 128,
            MidiEventKind::NoteOff(key) => key < 128,
            MidiEventKind::Tempo(micros_per_beat) => micros_per_beat < 0x100_0000,
            _ => true,
        }
    }
}

/// The abstract content of a MIDI file.
pub struct MidiModel {
    pub timing: MidiTiming,
    pub tracks: Seq<Seq<MidiEvent>>,
}

impl MidiModel {
    pub open spec fn wf(self) -> bool {
        &&& (self.timing matches MidiTiming::Metrical(ticks_per_beat) ==> ticks_per_beat
            < 0x8000)
        &&& (self.timing matches MidiTiming::Timecode(fps, subframes) ==> fps == 24 || fps
            == 25 || fps == 29 || fps == 30)
        &&& forall|t: int, i: int|
            0 <= t < self.tracks.len() && 0 <= i < self.tracks[t].len() ==> (
            #[trigger] self.tracks[t][i]).wf()
    }
}

/// A parsed MIDI file: its timing and its tracks, each a list of events.
pub struct MidiFile {
    pub timing: MidiTiming,
    pub tracks: Vec<Vec<MidiEvent>>,
}

impl View for MidiFile {
    type V = MidiModel;

    open spec fn view(&self) -> MidiModel {
        MidiModel { timing: self.timing, tracks: self.tracks@.map_values(|t: Vec<MidiEvent>| t@) }
    }
}

/// What `midly::Smf::parse` makes of a byte string, seen through `MidiFile`: `None` where
/// it reports an error.
pub uninterp spec fn midly_parse(bytes: Seq<u8>) -> Option<MidiModel>;

/// Calls `midly::Smf::parse` and copies what the note scan reads into a `MidiFile`:
/// the header timing, and for every event its delta and, for note-on, note-off, tempo
/// and end-of-track events, their fields (all other events become `Other`).
/// Trusted: the result is `midly_parse` of the bytes, and its numbers keep the
/// ranges of midly's restricted integer types (u7, u15, u24, u28; fps in 24/25/29/30).
/// Bytes whose header asks for -128 frames per second are left out: midly negates that
/// division byte as an `i8`, which overflows.
#[verifier::external_body]
pub(crate) fn parse_smf(bytes: &[u8]) -> (r: Option<MidiFile>)
    requires
        !division_overflows(bytes@),
    ensures
        match r {
            Some(f) => midly_parse(bytes@) == Some(f@) && f@.wf(),
            None => midly_parse(bytes@) is None,
        },
{
    let smf = Smf::parse(bytes).ok()?;
    Some(MidiFile {
        timing: match smf.header.timing {
            SmfMetrical(m) => Metrical(m.as_int()),
            SmfTimecode(f, s) => Timecode(f.as_int(), s)
        },
        tracks: smf.tracks.iter().map(|t| t.iter().map(|e| MidiEvent { delta: e.delta.as_int(), kind: match e.kind {
            Midi { message: On { key, vel }, .. } => NoteOn(key.as_int(), vel.as_int()),
            Midi { message: Off { key, .. }, .. } => NoteOff(key.as_int()),
            Meta(SmfTempo(t)) => Tempo(t.as_int()),
            Meta(SmfEnd) => EndOfTrack,
            _ => Other
        } }).collect()).collect()
    })
}

/// A note as the scan sees it: key, and start and end in weighted time.
pub struct NoteSpan {
    pub key: u8,
    pub start: int,
    pub end: int,
}

/// A played note: its MIDI key (A0 is 21, C8 is 108) and its start and end in
/// weighted time since the start of the track that held the event.
#[derive(Clone, Copy, Debug, PartialEq, Eq)]
pub struct Note {
    pub note: u8,
    pub start: u128,
    pub end: u128,
}

impl View for Note {
    type V = NoteSpan;

    open spec fn view(&self) -> NoteSpan {
        NoteSpan { key: self.note, start: self.start as int, end: self.end as int }
    }
}

pub open spec fn spans_of(v: Seq<Note>) -> Seq<NoteSpan> {
    v.map_values(|n: Note| n@)
}

pub open spec fn opt_int(o: Option<u128>) -> Option<int> {
    match o {
        Some(x) => Some(x as int),
        None => None,
    }
}

/// The state of the note scan.
pub struct Scan {
    /// For every key (0..128), the start of the note that sounds on it, if any.
    pub active: Seq<Option<int>>,
    /// Finished notes whose key is not in the black table, in the order they ended.
    pub whites: Seq<NoteSpan>,
    /// Finished notes whose key is in the black table, in the order they ended.
    pub blacks: Seq<NoteSpan>,
    /// The tempo in force (microseconds per beat).
    pub tempo: int,
    /// The time of the last end-of-track event seen.
    pub end: Option<int>,
    /// The weighted time of the current track.
    pub time: int,
}

pub open spec fn initial_scan() -> Scan {
    Scan {
        active: Seq::new(128, |i: int| None),
        whites: Seq::empty(),
        blacks: Seq::empty(),
        tempo: DEFAULT_TEMPO as int,
        end: None,
        time: 0,
    }
}

/// Ends the note that sounds on `key`, if any, at the current time.
pub open spec fn close_note(s: Scan, key: u8) -> Scan {
    match s.active[key as int] {
        Some(st) => {
            let n = NoteSpan { key, start: st, end: s.time };
            let s2 = Scan { active: s.active.update(key as int, None), ..s };
            if in_black_table(key) {
                Scan { blacks: s2.blacks.push(n), ..s2 }
            } else {
                Scan { whites: s2.whites.push(n), ..s2 }
            }
        },
        None => s,
    }
}

pub open spec fn weight(s: Scan, tempo_aware: bool) -> int {
    if tempo_aware {
        s.tempo
    } else {
        1
    }
}

/// One event: advance the clock by `delta * weight`, then act on the event. A note-on
/// with a key outside 21..=108 is ignored; with velocity 0 it ends the note on its key.
pub open spec fn step(s0: Scan, e: MidiEvent, tempo_aware: bool) -> Scan {
    let s = Scan { time: s0.time + e.delta * weight(s0, tempo_aware), ..s0 };
    match e.kind {
        MidiEventKind::NoteOn(key, vel) => if 20 < key && key < 109 {
            if vel > 0 {
                Scan { active: s.active.update(key as int, Some(s.time)), ..s }
            } else {
                close_note(s, key)
            }
        } else {
            s
        },
        MidiEventKind::NoteOff(key) => close_note(s, key),
        MidiEventKind::Tempo(micros_per_beat) => Scan { tempo: micros_per_beat as int, ..s },
        MidiEventKind::EndOfTrack => Scan { end: Some(s.time), ..s },
        MidiEventKind::Other => s,
    }
}

pub open spec fn scan_events(s: Scan, evs: Seq<MidiEvent>, tempo_aware: bool) -> Scan
    decreases evs.len(),
{
    if evs.len() == 0 {
        s
    } else {
        step(scan_events(s, evs.drop_last(), tempo_aware), evs.last(), tempo_aware)
    }
}

/// Every track starts its clock at 0; the active notes, the tempo and the finished
/// notes carry over from one track to the next.
pub open spec fn scan_tracks(s: Scan, tracks: Seq<Seq<MidiEvent>>, tempo_aware: bool) -> Scan
    decreases tracks.len(),
{
    if tracks.len() == 0 {
        s
    } else {
        let before = scan_tracks(s, tracks.drop_last(), tempo_aware);
        scan_events(Scan { time: 0, ..before }, tracks.last(), tempo_aware)
    }
}

pub open spec fn final_scan(m: MidiModel, tempo_aware: bool) -> Scan {
    scan_tracks(initial_scan(), m.tracks, tempo_aware)
}

/// The notes of a file: the white ones, then the black ones.
pub open spec fn extracted_notes(m: MidiModel, tempo_aware: bool) -> Seq<NoteSpan> {
    let s = final_scan(m, tempo_aware);
    s.whites + s.blacks
}

/// The result of the note scan.
pub struct NoteScan {
    /// White notes in the order they ended, then black notes in the order they ended.
    pub notes: Vec<Note>,
    /// The weighted time (in its track) of the last end-of-track event, if there was one.
    pub end_time: Option<u128>,
}

/// Whether the exec state of the scan stands for `s`.
pub open spec fn holds(
    s: Scan,
    active: Seq<Option<u128>>,
    whites: Seq<Note>,
    blacks: Seq<Note>,
    tempo: u32,
    end: Option<u128>,
    time: u128,
) -> bool {
    &&& active.len() == 128
    &&& s.active.len() == 128
    &&& forall|k: int| 0 <= k < 128 ==> #[trigger] s.active[k] == opt_int(active[k])
    &&& s.whites == spans_of(whites)
    &&& s.blacks == spans_of(blacks)
    &&& s.tempo == tempo as int
    &&& tempo < 0x100_0000
    &&& s.end == opt_int(end)
    &&& s.time == time as int
}

proof fn lemma_step_bound(delta: u32, w: int)
    requires
        delta < 0x1000_0000,
        0 <= w < 0x100_0000,
    ensures
        0 <= delta * w < max_step(),
{
    assert(0 <= delta * w < 0x1000_0000 * 0x100_0000) by (nonlinear_arith)
        requires
            delta < 0x1000_0000,
            0 <= w < 0x100_0000,
    ;
}

proof fn lemma_time_bound(i: int, time: int)
    requires
        0 <= i < 0x1_0000_0000_0000_0000,
        0 <= time <= i * max_step(),
    ensures
        time + max_step() <= (i + 1) * max_step(),
        (i + 1) * max_step() <= 0x1_0000_0000_0000_0000 * max_step(),
{
    assert((i + 1) * max_step() <= 0x1_0000_0000_0000_0000 * max_step()) by (nonlinear_arith)
        requires
            0 <= i < 0x1_0000_0000_0000_0000,
    ;
}

/// Ends the note on `key`, if one sounds, at `time`.
fn exec_close(
    key: u8,
    time: u128,
    active: &mut Vec<Option<u128>>,
    whites: &mut Vec<Note>,
    blacks: &mut Vec<Note>,
    Ghost(s): Ghost<Scan>,
    Ghost(tempo): Ghost<u32>,
    Ghost(end): Ghost<Option<u128>>,
) -> (r: Ghost<Scan>)
    requires
        key < 128,
        holds(s, old(active)@, old(whites)@, old(blacks)@, tempo, end, time),
    ensures
        r@ == close_note(s, key),
        holds(r@, final(active)@, final(whites)@, final(blacks)@, tempo, end, time),
{
    let slot = active[key as usize];
    match slot {
        Some(st) => {
            let n = Note { note: key, start: st, end: time };
            active.set(key as usize, None);
            let is_black = black_contains(key);
            if is_black {
                blacks.push(n);
            } else {
                whites.push(n);
            }
            let ghost r = close_note(s, key);
            proof {
                assert(spans_of(whites@) =~= r.whites);
                assert(spans_of(blacks@) =~= r.blacks);
                assert forall|k: int| 0 <= k < 128 implies #[trigger] r.active[k] == opt_int(
                    active@[k],
                ) by {}
            }
            Ghost(r)
        },
        None => Ghost(s),
    }
}

/// Pairs the note-on and note-off events of `file` into notes.
///
/// The scan goes through the tracks in order, and through each track's events in
/// order; `tempo_aware` says whether an event's delta counts in ticks (false) or in
/// ticks times the tempo in force (true). A note-on with velocity above 0 and a key in
/// 21..=108 starts a note on its key (dropping one that already sounded there); a
/// note-on with velocity 0 and a key in 21..=108, or a note-off, ends the note that
/// sounds on its key. The result lists the notes whose key is not in the black table,
/// then those whose key is, each in the order they ended.
pub fn scan_notes(file: &MidiFile, tempo_aware: bool) -> (r: NoteScan)
    requires
        file@.wf(),
    ensures
        spans_of(r.notes@) == extracted_notes(file@, tempo_aware),
        opt_int(r.end_time) == final_scan(file@, tempo_aware).end,
{
    let mut active: Vec<Option<u128>> = Vec::new();
    let mut k: usize = 0;
    while k < 128
        invariant
            k <= 128,
            active@.len() == k,
            forall|j: int| 0 <= j < k ==> active@[j] is None,
        decreases 128 - k,
    {
        active.push(None);
        k += 1;
    }
    let mut whites: Vec<Note> = Vec::new();
    let mut blacks: Vec<Note> = Vec::new();
    let mut tempo: u32 = DEFAULT_TEMPO;
    let mut end: Option<u128> = None;
    let ghost m = file@;
    let ghost mut s = initial_scan();
    proof {
        assert(spans_of(whites@) =~= s.whites);
        assert(spans_of(blacks@) =~= s.blacks);
        assert(m.tracks.take(0) =~= Seq::<Seq<MidiEvent>>::empty());
    }
    let mut ti: usize = 0;
    while ti < file.tracks.len()
        invariant
            m == file@,
            m.wf(),
            0 <= ti <= file.tracks@.len(),
            s == scan_tracks(initial_scan(), m.tracks.take(ti as int), tempo_aware),
            holds(s, active@, whites@, blacks@, tempo, end, s.time as u128),
            s.time >= 0,
            s.time < 0x1_0000_0000_0000_0000_0000_0000_0000_0000,
        decreases file.tracks@.len() - ti,
    {
        let track = &file.tracks[ti];
        let ghost evs = track@;
        let ghost start = Scan { time: 0, ..s };
        let mut time: u128 = 0;
        let ghost mut cur = start;
        proof {
            assert(evs == m.tracks[ti as int]);
            assert(evs.take(0) =~= Seq::<MidiEvent>::empty());
        }
        let mut ei: usize = 0;
        while ei < track.len()
            invariant
                m == file@,
                m.wf(),
                0 <= ti < file.tracks@.len(),
                track@ == evs,
                evs == m.tracks[ti as int],
                0 <= ei <= evs.len(),
                cur == scan_events(start, evs.take(ei as int), tempo_aware),
                holds(cur, active@, whites@, blacks@, tempo, end, time),
                time <= ei * max_step(),
            decreases evs.len() - ei,
        {
            let e = track[ei];
            proof {
                assert(e.wf());
                lemma_step_bound(e.delta, weight(cur, tempo_aware));
                lemma_time_bound(ei as int, time as int);
                assert(evs.take(ei + 1).drop_last() =~= evs.take(ei as int));
                assert(evs.take(ei + 1).last() == e);
            }
            let w: u32 = if tempo_aware { tempo } else { 1 };
            let step_len: u128 = (e.delta as u128) * (w as u128);
            time = time + step_len;
            let ghost advanced = Scan { time: time as int, ..cur };
            proof {
                assert forall|j: int| 0 <= j < 128 implies #[trigger] advanced.active[j] == opt_int(
                    active@[j],
                ) by {}
            }
            match e.kind {
                MidiEventKind::NoteOn(key, vel) => {
                    if 20 < key && key < 109 {
                        if vel > 0 {
                            active.set(key as usize, Some(time));
                            proof {
                                cur = Scan {
                                    active: advanced.active.update(key as int, Some(time as int)),
                                    ..advanced
                                };
                                assert forall|j: int| 0 <= j < 128 implies #[trigger] cur.active[j]
                                    == opt_int(active@[j]) by {}
                            }
                        } else {
                            let Ghost(c) = exec_close(
                                key,
                                time,
                                &mut active,
                                &mut whites,
                                &mut blacks,
                                Ghost(advanced),
                                Ghost(tempo),
                                Ghost(end),
                            );
                            proof {
                                cur = c;
                            }
                        }
                    } else {
                        proof {
                            cur = advanced;
                        }
                    }
                },
                MidiEventKind::NoteOff(key) => {
                    let Ghost(c) = exec_close(
                        key,
                        time,
                        &mut active,
                        &mut whites,
                        &mut blacks,
                        Ghost(advanced),
                        Ghost(tempo),
                        Ghost(end),
                    );
                    proof {
                        cur = c;
                    }
                },
                MidiEventKind::Tempo(micros_per_beat) => {
                    tempo = micros_per_beat;
                    proof {
                        cur = Scan { tempo: micros_per_beat as int, ..advanced };
                    }
                },
                MidiEventKind::EndOfTrack => {
                    end = Some(time);
                    proof {
                        cur = Scan { end: Some(time as int), ..advanced };
                    }
                },
                MidiEventKind::Other => {
                    proof {
                        cur = advanced;
                    }
                },
            }
            ei += 1;
        }
        proof {
            assert(evs.take(ei as int) =~= evs);
            assert(m.tracks.take(ti + 1).drop_last() =~= m.tracks.take(ti as int));
            assert(m.tracks.take(ti + 1).last() == evs);
            s = cur;
        }
        ti += 1;
    }
    proof {
        assert(m.tracks.take(ti as int) =~= m.tracks);
    }
    let ghost whites_before = spans_of(whites@);
    let ghost nwhite = whites@.len();
    let mut notes = whites;
    let mut bi: usize = 0;
    while bi < blacks.len()
        invariant
            bi <= blacks@.len(),
            notes@.len() == nwhite + bi,
            spans_of(notes@) == whites_before + spans_of(blacks@).take(bi as int),
        decreases blacks@.len() - bi,
    {
        let ghost prev = notes@;
        notes.push(blacks[bi]);
        proof {
            assert(spans_of(notes@) =~= spans_of(prev).push(blacks@[bi as int]@));
            assert(spans_of(blacks@).take(bi + 1) =~= spans_of(blacks@).take(bi as int).push(
                blacks@[bi as int]@,
            ));
            assert(spans_of(notes@) =~= whites_before + spans_of(blacks@).take(bi + 1));
        }
        bi += 1;
    }
    proof {
        assert(spans_of(blacks@).take(bi as int) =~= spans_of(blacks@));
    }
    NoteScan { notes, end_time: end }
}

} // verus!
