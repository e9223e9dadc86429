use sparmos::midi::{Midi, MidiError, SmfEvent, SmfEventKind, SmfTiming};

fn one_note_file() -> Vec<u8> {
    let mut bytes = vec![b'M', b'T', b'h', b'd', 0, 0, 0, 6, 0, 0, 0, 1, 0x01, 0xE0];
    bytes.extend_from_slice(&[b'M', b'T', b'r', b'k', 0, 0, 0, 0x14]);
    bytes.extend_from_slice(&[0x00, 0xFF, 0x51, 0x03, 0x07, 0xA1, 0x20]);
    bytes.extend_from_slice(&[0x00, 0x90, 0x3C, 0x40]);
    bytes.extend_from_slice(&[0x83, 0x60, 0x80, 0x3C, 0x40]);
    bytes.extend_from_slice(&[0x00, 0xFF, 0x2F, 0x00]);
    bytes
}

#[test]
fn a_single_note_is_read() {
    let midi = Midi::try_load_midi(&one_note_file()).unwrap();
    assert_eq!(midi.length, 480);
    assert_eq!(midi.tempos, vec![500_000]);
    assert_eq!(midi.ticks_per_quarter, 480);
    assert_eq!(midi.channels.len(), 1);
    let notes = &midi.channels[&0];
    assert_eq!(notes.len(), 1);
    assert_eq!(notes[0].name, "Note 60 in Channel 0");
    assert_eq!(notes[0].key, 60);
    assert_eq!(notes[0].start, 0);
    assert_eq!(notes[0].length, 480);
}

#[test]
fn load_midi_reads_a_valid_file() {
    let midi = Midi::load_midi(&one_note_file());
    assert_eq!(midi.channels[&0][0].length, 480);
}

#[test]
fn garbage_is_a_parse_error() {
    assert_eq!(Midi::try_load_midi(b"not a midi file").unwrap_err(), MidiError::Parse);
    assert_eq!(Midi::try_load_midi(&[]).unwrap_err(), MidiError::Parse);
}

#[test]
fn a_note_ending_before_it_started_is_a_timing_error() {
    let mut bytes = vec![b'M', b'T', b'h', b'd', 0, 0, 0, 6, 0, 1, 0, 2, 0x00, 0x60];
    bytes.extend_from_slice(&[b'M', b'T', b'r', b'k', 0, 0, 0, 8]);
    bytes.extend_from_slice(&[0x64, 0x90, 0x3C, 0x40, 0x00, 0xFF, 0x2F, 0x00]);
    bytes.extend_from_slice(&[b'M', b'T', b'r', b'k', 0, 0, 0, 8]);
    bytes.extend_from_slice(&[0x0A, 0x80, 0x3C, 0x40, 0x00, 0xFF, 0x2F, 0x00]);
    assert_eq!(Midi::try_load_midi(&bytes).unwrap_err(), MidiError::Timing);
}

#[test]
fn notes_are_tracked_across_events() {
    let ev = |delta: u32, kind: SmfEventKind| SmfEvent { delta, kind };
    let tracks = vec![
        vec![
            ev(0, SmfEventKind::NoteOn { channel: 2, key: 64, velocity: 90 }),
            ev(10, SmfEventKind::NoteOn { channel: 2, key: 67, velocity: 90 }),
            ev(5, SmfEventKind::NoteOn { channel: 2, key: 64, velocity: 0 }),
            ev(5, SmfEventKind::Tempo(400_000)),
            ev(5, SmfEventKind::NoteOff { channel: 2, key: 67 }),
            ev(1, SmfEventKind::NoteOff { channel: 2, key: 99 }),
            ev(0, SmfEventKind::Other),
        ],
        vec![ev(7, SmfEventKind::Other)],
    ];
    let midi = Midi::from_tracks(SmfTiming::Timecode, &tracks).unwrap();
    assert_eq!(midi.ticks_per_quarter, 480);
    assert_eq!(midi.length, 7);
    assert_eq!(midi.tempos, vec![400_000]);
    let notes = &midi.channels[&2];
    assert_eq!(notes.len(), 2);
    assert_eq!((notes[0].key, notes[0].start, notes[0].length), (64, 0, 15));
    assert_eq!((notes[1].key, notes[1].start, notes[1].length), (67, 10, 15));
    assert_eq!(notes[1].name, "Note 67 in Channel 2");
}

#[test]
fn time_past_u32_is_refused() {
    let tracks = vec![vec![
        SmfEvent { delta: u32::MAX, kind: SmfEventKind::Other },
        SmfEvent { delta: 1, kind: SmfEventKind::Other },
    ]];
    assert!(Midi::from_tracks(SmfTiming::Metrical(96), &tracks).is_none());
}
