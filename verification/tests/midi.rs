use pianorium::layout::black_contains;
use pianorium::midi::{scan_notes, MidiEvent, MidiEventKind, MidiFile, MidiTiming, Note};
use pianorium::notes::{time_scale, MidiError, Notes, TimeScale};
use pianorium::smf_chunks::division_overflows_in;

fn chunk(tag: &[u8], body: &[u8]) -> Vec<u8> {
    let mut v = tag.to_vec();
    v.extend_from_slice(&(body.len() as u32).to_be_bytes());
    v.extend_from_slice(body);
    v
}

fn smf(format: u16, division: u16, tracks: &[Vec<u8>]) -> Vec<u8> {
    let mut header = Vec::new();
    header.extend_from_slice(&format.to_be_bytes());
    header.extend_from_slice(&(tracks.len() as u16).to_be_bytes());
    header.extend_from_slice(&division.to_be_bytes());
    let mut file = chunk(b"MThd", &header);
    for t in tracks {
        file.extend(chunk(b"MTrk", t));
    }
    file
}

/// Middle C for one beat, then C#4 for half a beat, at 96 ticks per beat.
fn two_note_track() -> Vec<u8> {
    vec![
        0x00, 0x90, 60, 100, // note on C4
        0x60, 0x80, 60, 0, // 96 ticks later: note off C4
        0x00, 0x90, 61, 90, // note on C#4
        0x30, 0x90, 61, 0, // 48 ticks later: note on with velocity 0 ends it
        0x00, 0xFF, 0x2F, 0x00, // end of track
    ]
}

#[test]
fn parses_and_pairs_notes_with_tempo() {
    let bytes = smf(0, 96, &[two_note_track()]);
    let song = Notes::from_midi(&bytes, true).unwrap();
    // C4 (60) is not in the black table, C#4 (61) is: white first.
    assert_eq!(
        song.notes.notes,
        vec![
            Note { note: 60, start: 0, end: 96 * 500_000 },
            Note { note: 61, start: 96 * 500_000, end: 144 * 500_000 },
        ]
    );
    assert_eq!(song.end_time, Some(144 * 500_000));
    assert_eq!(song.scale, TimeScale { num: 1, den: 96_000_000 });
    // one beat at the default tempo is half a second
    assert_eq!(96 * 500_000 * song.scale.num as u128 * 2, song.scale.den as u128);
    assert_eq!(song.notes.ind.len(), 24);
    assert_eq!(&song.notes.ind[12..24], &[8, 10, 9, 8, 10, 11, 12, 14, 13, 12, 14, 15]);
}

#[test]
fn parses_and_pairs_notes_in_ticks() {
    let bytes = smf(0, 96, &[two_note_track()]);
    let song = Notes::from_midi(&bytes, false).unwrap();
    assert_eq!(
        song.notes.notes,
        vec![Note { note: 60, start: 0, end: 96 }, Note { note: 61, start: 96, end: 144 }]
    );
    assert_eq!(song.end_time, Some(144));
}

#[test]
fn tempo_change_weights_later_ticks() {
    let track = vec![
        0x00, 0xFF, 0x51, 0x03, 0x0F, 0x42, 0x40, // tempo 1_000_000 us per beat
        0x00, 0x90, 64, 80, //
        0x60, 0x80, 64, 0, //
        0x00, 0xFF, 0x2F, 0x00,
    ];
    let song = Notes::from_midi(&smf(0, 96, &[track]), true).unwrap();
    assert_eq!(song.notes.notes, vec![Note { note: 64, start: 0, end: 96 * 1_000_000 }]);
}

#[test]
fn rejects_bytes_that_are_not_midi() {
    let r = Notes::from_midi(b"definitely not a midi file", true);
    assert!(matches!(r, Err(MidiError::Parse)));
}

#[test]
fn ignores_note_on_outside_the_piano() {
    let track = vec![
        0x00, 0x90, 10, 100, // key 10: not on the piano
        0x10, 0x80, 10, 0, //
        0x00, 0x90, 109, 100, // key 109: not on the piano
        0x10, 0x80, 109, 0, //
        0x00, 0xFF, 0x2F, 0x00,
    ];
    let song = Notes::from_midi(&smf(0, 96, &[track]), true).unwrap();
    assert!(song.notes.notes.is_empty());
    assert!(song.notes.ind.is_empty());
}

#[test]
fn restarted_note_drops_the_first() {
    let track = vec![
        0x00, 0x90, 70, 100, //
        0x10, 0x90, 70, 100, // starts again before ending
        0x10, 0x80, 70, 0, //
        0x00, 0xFF, 0x2F, 0x00,
    ];
    let song = Notes::from_midi(&smf(0, 96, &[track]), false).unwrap();
    assert_eq!(song.notes.notes, vec![Note { note: 70, start: 16, end: 32 }]);
}

#[test]
fn unended_note_is_not_listed_and_no_end_of_track_gives_no_end() {
    let file = MidiFile {
        timing: MidiTiming::Metrical(480),
        tracks: vec![vec![MidiEvent { delta: 5, kind: MidiEventKind::NoteOn(60, 64) }]],
    };
    let r = scan_notes(&file, true);
    assert!(r.notes.is_empty());
    assert_eq!(r.end_time, None);
}

#[test]
fn notes_carry_over_tracks() {
    // A note started late in the first track and ended early in the second one ends
    // before it starts: each track's clock starts at zero.
    let file = MidiFile {
        timing: MidiTiming::Metrical(96),
        tracks: vec![
            vec![
                MidiEvent { delta: 100, kind: MidiEventKind::NoteOn(48, 64) },
                MidiEvent { delta: 0, kind: MidiEventKind::EndOfTrack },
            ],
            vec![
                MidiEvent { delta: 10, kind: MidiEventKind::NoteOff(48) },
                MidiEvent { delta: 5, kind: MidiEventKind::EndOfTrack },
            ],
        ],
    };
    let r = scan_notes(&file, false);
    assert_eq!(r.notes, vec![Note { note: 48, start: 100, end: 10 }]);
    assert_eq!(r.end_time, Some(15));
}

#[test]
fn white_notes_come_before_black_notes() {
    // black-table keys 25, 28 and white 26, 27, ended in the order 25, 26, 28, 27
    let ev = |delta, kind| MidiEvent { delta, kind };
    let file = MidiFile {
        timing: MidiTiming::Metrical(96),
        tracks: vec![vec![
            ev(0, MidiEventKind::NoteOn(25, 1)),
            ev(0, MidiEventKind::NoteOn(26, 1)),
            ev(0, MidiEventKind::NoteOn(27, 1)),
            ev(0, MidiEventKind::NoteOn(28, 1)),
            ev(1, MidiEventKind::NoteOff(25)),
            ev(1, MidiEventKind::NoteOff(26)),
            ev(1, MidiEventKind::NoteOff(28)),
            ev(1, MidiEventKind::NoteOff(27)),
        ]],
    };
    let keys: Vec<u8> = scan_notes(&file, false).notes.iter().map(|n| n.note).collect();
    assert_eq!(keys, vec![26, 27, 25, 28]);
    assert!(black_contains(25) && black_contains(28));
    assert!(!black_contains(26) && !black_contains(27));
}

#[test]
fn at_most_one_note_per_start() {
    let ev = |delta, kind| MidiEvent { delta, kind };
    let file = MidiFile {
        timing: MidiTiming::Metrical(96),
        tracks: vec![vec![
            ev(0, MidiEventKind::NoteOn(40, 1)),
            ev(1, MidiEventKind::NoteOff(40)),
            ev(1, MidiEventKind::NoteOff(40)), // nothing sounds any more
            ev(1, MidiEventKind::NoteOn(41, 0)), // nothing sounds on 41
        ]],
    };
    assert_eq!(scan_notes(&file, true).notes.len(), 1);
}

#[test]
fn black_table_is_the_listed_numbers() {
    assert!(black_contains(1));
    assert!(black_contains(85));
    assert!(!black_contains(0));
    assert!(!black_contains(22));
    assert!(!black_contains(108));
}

#[test]
fn time_scales() {
    assert_eq!(time_scale(MidiTiming::Metrical(480)), TimeScale { num: 1, den: 480_000_000 });
    assert_eq!(time_scale(MidiTiming::Timecode(25, 40)), TimeScale { num: 1, den: 500_000_000 });
    assert_eq!(
        time_scale(MidiTiming::Timecode(29, 4)),
        TimeScale { num: 1001, den: 60_000_000_000 }
    );
}

#[test]
fn timecode_file_gets_its_scale() {
    // division 0xE728: -25 fps, 40 ticks per frame
    let bytes = smf(0, 0xE728, &[two_note_track()]);
    let song = Notes::from_midi(&bytes, true).unwrap();
    assert_eq!(song.scale, TimeScale { num: 1, den: 500_000_000 });
}

#[test]
fn notes_to_indices_rebuilds_the_buffer() {
    let mut n = Notes {
        notes: vec![Note { note: 60, start: 0, end: 1 }; 3],
        ind: vec![99],
    };
    n.notes_to_indices();
    assert_eq!(n.ind.len(), 36);
    assert_eq!(n.ind[24..36], [16, 18, 17, 16, 18, 19, 20, 22, 21, 20, 22, 23]);
    assert_eq!(n.notes.len(), 3);
}

fn rmid(smf_bytes: &[u8]) -> Vec<u8> {
    let mut data = b"data".to_vec();
    data.extend_from_slice(&(smf_bytes.len() as u32).to_le_bytes());
    data.extend_from_slice(smf_bytes);
    if smf_bytes.len() % 2 == 1 {
        data.push(0);
    }
    let mut form = b"RMID".to_vec();
    form.extend_from_slice(b"INFO");
    form.extend_from_slice(&3u32.to_le_bytes());
    form.extend_from_slice(b"abc\0");
    form.extend(data);
    let mut file = b"RIFF".to_vec();
    file.extend_from_slice(&(form.len() as u32).to_le_bytes());
    file.extend(form);
    file
}

#[test]
fn refuses_minus_128_frames_per_second() {
    let bytes: Vec<u8> = vec![
        b'M', b'T', b'h', b'd', 0, 0, 0, 6, 0, 0, 0, 1, 0x80, 0x00,
    ];
    assert!(division_overflows_in(&bytes));
    assert!(matches!(Notes::from_midi(&bytes, true), Err(MidiError::Parse)));
    let wrapped = rmid(&bytes);
    assert!(division_overflows_in(&wrapped));
    assert!(matches!(Notes::from_midi(&wrapped, false), Err(MidiError::Parse)));
    let with_track = smf(1, 0x8000, &[two_note_track()]);
    assert!(division_overflows_in(&with_track));
    assert!(matches!(Notes::from_midi(&with_track, true), Err(MidiError::Parse)));
}

#[test]
fn other_divisions_reach_the_parser() {
    assert!(!division_overflows_in(&smf(0, 96, &[two_note_track()])));
    // -127 frames per second: no overflow, and midly refuses the rate.
    let odd = smf(0, 0x8100, &[two_note_track()]);
    assert!(!division_overflows_in(&odd));
    assert!(matches!(Notes::from_midi(&odd, true), Err(MidiError::Parse)));
    // -25 frames per second, 40 subframes: a valid timecode.
    let tc = smf(0, 0xE728, &[two_note_track()]);
    assert!(!division_overflows_in(&tc));
    assert_eq!(Notes::from_midi(&tc, false).unwrap().notes.notes.len(), 2);
    // An invalid format stops the parse before the division is read.
    assert!(!division_overflows_in(&smf(3, 0x8000, &[two_note_track()])));
    // A track chunk before the header (inside an RMID wrapper): the header is never read.
    let mut late = chunk(b"MTrk", &two_note_track());
    late.extend(chunk(b"MThd", &[0, 0, 0, 1, 0x80, 0x00]));
    let late = rmid(&late);
    assert!(!division_overflows_in(&late));
    assert!(matches!(Notes::from_midi(&late, true), Err(MidiError::Parse)));
    // Inside an RMID wrapper the same file parses.
    let wrapped = rmid(&smf(0, 96, &[two_note_track()]));
    assert!(!division_overflows_in(&wrapped));
    assert_eq!(Notes::from_midi(&wrapped, false).unwrap().notes.notes.len(), 2);
}

#[test]
fn later_headers_are_read_too() {
    let bad_header = chunk(b"MThd", &[0, 0, 0, 1, 0x80, 0x00]);
    // A duplicate header with -128 frames per second after a track.
    let mut later = smf(0, 96, &[two_note_track()]);
    later.extend(bad_header.iter().copied());
    assert!(division_overflows_in(&later));
    assert!(matches!(Notes::from_midi(&later, true), Err(MidiError::Parse)));
    // A duplicate header that reads is passed over.
    let mut fine = smf(0, 96, &[two_note_track()]);
    fine.extend(chunk(b"MThd", &[0, 0, 0, 1, 0, 96]));
    assert!(!division_overflows_in(&fine));
    assert_eq!(Notes::from_midi(&fine, false).unwrap().notes.notes.len(), 2);
    // A duplicate header that does not read ends the walk before the bad one.
    let mut stopped = smf(0, 96, &[two_note_track()]);
    stopped.extend(chunk(b"MThd", &[0, 3, 0, 1, 0, 96]));
    stopped.extend(bad_header.iter().copied());
    assert!(!division_overflows_in(&stopped));
    assert_eq!(Notes::from_midi(&stopped, false).unwrap().notes.notes.len(), 2);
}
