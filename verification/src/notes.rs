//! The notes of a song and their index buffer, and how weighted time becomes seconds.
use vstd::prelude::*;

use crate::geometry::{
    law_note_indices_stay_in_their_note, note_index_buffer, note_indices, MAX_NOTES,
};
use crate::midi::{
    extracted_notes, final_scan, midly_parse, opt_int, parse_smf, scan_notes, spans_of,
    MidiFile, MidiTiming, Note, DEFAULT_TEMPO,
};
use crate::smf_chunks::{division_overflows, division_overflows_in};

verus! {

/// Seconds per unit of weighted time, as the fraction `num / den`.
#[derive(Clone, Copy, Debug, PartialEq, Eq)]
pub struct TimeScale {
    pub num: u64,
    pub den: u64,
}

/// Seconds per unit of tempo-weighted time. With metrical timing a tick lasts
/// `tempo / ticks_per_beat` microseconds, so a unit (tick times microseconds per beat)
/// lasts `1 / (1_000_000 * ticks_per_beat)` seconds. With timecode timing a tick lasts
/// `1 / (fps * subframes)` seconds at the starting tempo of 500000, and scales with the
/// tempo from there: `1 / (500_000 * fps * subframes)` seconds per unit, where fps 29
/// stands for 30 / 1.001.
pub open spec fn scale_of(t: MidiTiming) -> TimeScale {
    match t {
        MidiTiming::Metrical(ticks_per_beat) => TimeScale {
            num: 1,
            den: (1_000_000 * ticks_per_beat) as u64,
        },
        MidiTiming::Timecode(fps, subframes) => if fps == 29 {
            TimeScale { num: 1001, den: (500_000 * 30_000 * subframes) as u64 }
        } else {
            TimeScale { num: 1, den: (500_000 * fps * subframes) as u64 }
        },
    }
}

/// Computes `scale_of(timing)`.
pub fn time_scale(timing: MidiTiming) -> (r: TimeScale)
    requires
        timing matches MidiTiming::Metrical(ticks_per_beat) ==> ticks_per_beat < 0x8000,
        timing matches MidiTiming::Timecode(fps, subframes) ==> fps <= 30,
    ensures
        r == scale_of(timing),
{
    match timing {
        MidiTiming::Metrical(ticks_per_beat) => TimeScale {
            num: 1,
            den: 1_000_000 * (ticks_per_beat as u64),
        },
        MidiTiming::Timecode(fps, subframes) => {
            let sub = subframes as u64;
            if fps == 29 {
                TimeScale { num: 1001, den: 15_000_000_000 * sub }
            } else {
                let f = fps as u64;
                assert(f * sub <= 30 * 255) by (nonlinear_arith)
                    requires
                        f <= 30,
                        sub <= 255,
                ;
                let fs = f * sub;
                assert(500_000 * fs == 500_000 * fps * subframes) by (nonlinear_arith)
                    requires
                        fs == f * sub,
                        f == fps,
                        sub == subframes,
                ;
                TimeScale { num: 1, den: 500_000 * fs }
            }
        },
    }
}

/// The notes of a song and the index buffer that draws them.
pub struct Notes {
    pub notes: Vec<Note>,
    pub ind: Vec<u32>,
}

/// Why a byte string gives no notes.
#[derive(Clone, Copy, Debug, PartialEq, Eq)]
pub enum MidiError {
    /// `midly` does not accept the bytes as a Standard MIDI File.
    Parse,
    /// The file holds more notes than a `u32` index buffer can draw.
    TooManyNotes,
}

/// The notes of a MIDI file with what it takes to place them in time.
pub struct Song {
    pub notes: Notes,
    /// The weighted time of the last end-of-track event, if any.
    pub end_time: Option<u128>,
    /// Seconds per unit of weighted time.
    pub scale: TimeScale,
}

impl Notes {
    /// Rebuilds the index buffer for the current notes: four triangles per note.
    pub fn notes_to_indices(&mut self)
        requires
            old(self).notes@.len() <= MAX_NOTES,
        ensures
            final(self).notes@ == old(self).notes@,
            final(self).ind@ == note_indices(old(self).notes@.len()),
            forall|k: int|
                0 <= k < final(self).ind@.len() ==> #[trigger] final(self).ind@[k] < 8
                    * final(self).notes@.len(),
    {
        self.ind = note_index_buffer(self.notes.len());
        proof {
            law_note_indices_stay_in_their_note(self.notes@.len());
        }
    }

    /// Scans a parsed file for its notes (see `scan_notes`) and builds their index buffer.
    pub fn from_midi_file(file: &MidiFile, tempo_aware: bool) -> (r: Result<
        (Notes, Option<u128>),
        MidiError,
    >)
        requires
            file@.wf(),
        ensures
            match r {
                Ok((n, end)) => {
                    &&& n.notes@.len() <= MAX_NOTES
                    &&& spans_of(n.notes@) == extracted_notes(file@, tempo_aware)
                    &&& n.ind@ == note_indices(n.notes@.len())
                    &&& forall|k: int| 0 <= k < n.ind@.len() ==> #[trigger] n.ind@[k] < 8 * n.notes@.len()
                    &&& opt_int(end) == final_scan(file@, tempo_aware).end
                },
                Err(e) => e == MidiError::TooManyNotes && extracted_notes(file@, tempo_aware).len()
                    > MAX_NOTES,
            },
    {
        let scan = scan_notes(file, tempo_aware);
        if scan.notes.len() > MAX_NOTES {
            return Err(MidiError::TooManyNotes);
        }
        let mut n = Notes { notes: scan.notes, ind: Vec::new() };
        n.notes_to_indices();
        Ok((n, scan.end_time))
    }

    /// Parses the bytes of a Standard MIDI File with `midly`, scans its notes and builds
    /// their index buffer, and gives the scale that turns their times into seconds. A
    /// file whose header asks for -128 frames per second is refused as unparsable before
    /// `midly` reads it.
    pub fn from_midi(bytes: &[u8], tempo_aware: bool) -> (r: Result<Song, MidiError>)
        ensures
            match r {
                Ok(song) => {
                    &&& !division_overflows(bytes@)
                    &&& midly_parse(bytes@) matches Some(m)
                    &&& m.wf()
                    &&& song.notes.notes@.len() <= MAX_NOTES
                    &&& spans_of(song.notes.notes@) == extracted_notes(m, tempo_aware)
                    &&& song.notes.ind@ == note_indices(song.notes.notes@.len())
                    &&& forall|k: int|
                        0 <= k < song.notes.ind@.len() ==> #[trigger] song.notes.ind@[k] < 8
                            * song.notes.notes@.len()
                    &&& opt_int(song.end_time) == final_scan(m, tempo_aware).end
                    &&& song.scale == scale_of(m.timing)
                },
                Err(MidiError::Parse) => division_overflows(bytes@) || midly_parse(bytes@) is None,
                Err(MidiError::TooManyNotes) => {
                    &&& !division_overflows(bytes@)
                    &&& midly_parse(bytes@) matches Some(m)
                    &&& m.wf()
                    &&& extracted_notes(m, tempo_aware).len() > MAX_NOTES
                },
            },
    {
        if division_overflows_in(bytes) {
            return Err(MidiError::Parse);
        }
        let file = match parse_smf(bytes) {
            Some(f) => f,
            None => return Err(MidiError::Parse),
        };
        let scale = time_scale(file.timing);
        match Notes::from_midi_file(&file, tempo_aware) {
            Ok((notes, end_time)) => Ok(Song { notes, end_time, scale }),
            Err(e) => Err(e),
        }
    }
}

/// With metrical timing, a beat (`ticks_per_beat` ticks) at tempo `t` lasts `t`
/// microseconds: its weighted time `ticks_per_beat * t`, scaled, is `t / 1_000_000`
/// seconds. At the starting tempo a beat lasts half a second.
pub proof fn law_beat_lasts_its_tempo(ticks_per_beat: u16, t: nat)
    requires
        ticks_per_beat > 0,
    ensures
        ({
            let sc = scale_of(MidiTiming::Metrical(ticks_per_beat));
            &&& ticks_per_beat * t * sc.num * 1_000_000 == t * sc.den
            &&& ticks_per_beat * DEFAULT_TEMPO * sc.num * 2 == sc.den
        }),
{
    let sc = scale_of(MidiTiming::Metrical(ticks_per_beat));
    let den = sc.den as int;
    let num = sc.num as int;
    let k = ticks_per_beat as int;
    assert(den == 1_000_000 * k);
    assert(num == 1);
    assert(k * t * num * 1_000_000 == t * den && k * 500_000 * num * 2 == den) by (
    nonlinear_arith)
        requires
            den == 1_000_000 * k,
            num == 1,
    ;
}

/// With timecode timing, a tick at the starting tempo lasts one subframe:
/// `1 / (fps * subframes)` seconds, where fps 29 stands for 30 / 1.001.
pub proof fn law_tick_lasts_a_subframe(fps: u8, subframes: u8)
    requires
        fps == 24 || fps == 25 || fps == 29 || fps == 30,
    ensures
        ({
            let sc = scale_of(MidiTiming::Timecode(fps, subframes));
            &&& fps != 29 ==> DEFAULT_TEMPO * sc.num * fps * subframes == sc.den
            &&& fps == 29 ==> DEFAULT_TEMPO * sc.num * 30_000 * subframes == sc.den * 1001
        }),
{
    let sc = scale_of(MidiTiming::Timecode(fps, subframes));
    let den = sc.den as int;
    let num = sc.num as int;
    let f = fps as int;
    let sub = subframes as int;
    if fps == 29 {
        assert(den == 15_000_000_000 * sub);
        assert(num == 1001);
        assert(500_000 * num * 30_000 * sub == den * 1001) by (nonlinear_arith)
            requires
                den == 15_000_000_000 * sub,
                num == 1001,
        ;
    } else {
        assert(500_000 * f * sub <= 500_000 * 30 * 255) by (nonlinear_arith)
            requires
                f <= 30,
                sub <= 255,
                f >= 0,
                sub >= 0,
        ;
        assert(den == 500_000 * f * sub);
        assert(num == 1);
        assert(500_000 * num * f * sub == den) by (nonlinear_arith)
            requires
                den == 500_000 * f * sub,
                num == 1,
        ;
    }
}

} // verus!
