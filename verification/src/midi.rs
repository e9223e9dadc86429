//! Notes and tempos read from a Standard MIDI File.
use std::collections::HashMap;

use vstd::prelude::*;

use crate::text::{decimal, push_decimal, push_str};

verus! {

#[verifier::external_type_specification]
#[verifier::external_body]
pub struct ExSmf<'a>(midly::Smf<'a>);

#[verifier::external_type_specification]
#[verifier::external_body]
pub struct ExMidlyError(midly::Error);

/// The timing field of a MIDI file header.
#[derive(Clone, Copy, Debug, PartialEq, Eq)]
pub enum SmfTiming {
    /// Ticks per quarter note.
    Metrical(u16),
    /// SMPTE timecode timing.
    Timecode,
}

/// The part of a track event that note tracking reads.
#[derive(Clone, Copy, Debug, PartialEq, Eq)]
pub enum SmfEventKind {
    NoteOn { channel: u8, key: u8, velocity: u8 },
    NoteOff { channel: u8, key: u8 },
    /// A tempo meta event, in microseconds per quarter note.
    Tempo(u32),
    /// Any other event.
    Other,
}

/// A track event: its delta time in ticks and its kind.
#[derive(Clone, Copy, Debug, PartialEq, Eq)]
pub struct SmfEvent {
    pub delta: u32,
    pub kind: SmfEventKind,
}

/// Channels are 4-bit and keys 7-bit numbers in a MIDI file.
pub open spec fn event_in_range(ev: SmfEvent) -> bool {
    match ev.kind {
        SmfEventKind::NoteOn { channel, key, .. } => channel < 16 && key < 128,
        SmfEventKind::NoteOff { channel, key } => channel < 16 && key < 128,
        _ => true,
    }
}

/// The tracks of events that `midly::Smf::parse` reads from a file's bytes, with the
/// header's timing; `None` when it refuses the bytes.
pub uninterp spec fn midi_file(bytes: Seq<u8>) -> Option<(SmfTiming, Seq<Seq<SmfEvent>>)>;

/// The tracks of a parsed file.
pub uninterp spec fn smf_tracks(smf: midly::Smf<'static>) -> Seq<Seq<SmfEvent>>;

/// The header timing of a parsed file.
pub uninterp spec fn smf_timing(smf: midly::Smf<'static>) -> SmfTiming;

/// `midly::Smf::parse`, with the parsed file made independent of the input buffer by
/// `Smf::make_static` (which only blanks byte-string payloads that nothing here reads).
/// Claimed: on success the file's timing and tracks are what `midi_file` names for the
/// bytes, and on failure `midi_file` names `None`.
#[verifier::external_body]
fn parse_smf(bytes: &[u8]) -> (r: Result<midly::Smf<'static>, midly::Error>)
    ensures
        match r {
            Ok(smf) => midi_file(bytes@) == Some((smf_timing(smf), smf_tracks(smf))),
            Err(_) => midi_file(bytes@) is None,
        },
{
    match midly::Smf::parse(bytes) {
        Ok(smf) => Ok(smf.make_static()),
        Err(e) => Err(e),
    }
}

/// The `timing` field of the header: ticks per beat, or timecode.
#[verifier::external_body]
fn header_timing(smf: &midly::Smf<'static>) -> (r: SmfTiming)
    ensures
        r == smf_timing(*smf),
{
    match smf.header.timing {
        midly::Timing::Metrical(ticks) => SmfTiming::Metrical(ticks.as_int()),
        midly::Timing::Timecode(_, _) => SmfTiming::Timecode,
    }
}

/// The number of tracks, `smf.tracks.len()`.
#[verifier::external_body]
fn track_count(smf: &midly::Smf<'static>) -> (r: usize)
    ensures
        r == smf_tracks(*smf).len(),
{
    smf.tracks.len()
}

/// The number of events of track `t`.
#[verifier::external_body]
fn track_len(smf: &midly::Smf<'static>, t: usize) -> (r: usize)
    requires
        t < smf_tracks(*smf).len(),
    ensures
        r == smf_tracks(*smf)[t as int].len(),
{
    smf.tracks[t].len()
}

/// Event `e` of track `t`: its delta time, and its kind where the kind is a note on, a
/// note off or a tempo. midly stores channels as 4-bit and keys as 7-bit integers.
#[verifier::external_body]
fn track_event(smf: &midly::Smf<'static>, t: usize, e: usize) -> (r: SmfEvent)
    requires
        t < smf_tracks(*smf).len(),
        e < smf_tracks(*smf)[t as int].len(),
    ensures
        r == smf_tracks(*smf)[t as int][e as int],
        event_in_range(r),
{
    let ev = &smf.tracks[t][e];
    let kind = match ev.kind {
        midly::TrackEventKind::Midi { channel, message: midly::MidiMessage::NoteOn { key, vel } } =>
            SmfEventKind::NoteOn { channel: channel.as_int(), key: key.as_int(), velocity: vel.as_int() },
        midly::TrackEventKind::Midi { channel, message: midly::MidiMessage::NoteOff { key, .. } } =>
            SmfEventKind::NoteOff { channel: channel.as_int(), key: key.as_int() },
        midly::TrackEventKind::Meta(midly::MetaMessage::Tempo(tempo)) => SmfEventKind::Tempo(tempo.as_int()),
        _ => SmfEventKind::Other,
    };
    SmfEvent { delta: ev.delta.as_int(), kind }
}

} // verus!

verus! {

/// A finished note as note tracking records it.
pub struct NoteRecord {
    pub key: u8,
    pub start: int,
    pub length: int,
}

/// The state of note tracking after some events.
pub struct TrackingState {
    /// The current time in ticks, counted from the start of the current track.
    pub time: int,
    /// The start time of each sounding (channel, key).
    pub active: Map<(u8, u8), int>,
    /// The finished notes of each channel that has any, in the order they ended.
    pub channels: Map<u8, Seq<NoteRecord>>,
    /// The tempo events, in order.
    pub tempos: Seq<u32>,
    /// No time so far left the range of `u32`, and no note ended before it started.
    pub ok: bool,
}

pub open spec fn initial_state() -> TrackingState {
    TrackingState {
        time: 0,
        active: Map::empty(),
        channels: Map::empty(),
        tempos: Seq::empty(),
        ok: true,
    }
}

pub open spec fn notes_of(channels: Map<u8, Seq<NoteRecord>>, ch: u8) -> Seq<NoteRecord> {
    if channels.contains_key(ch) {
        channels[ch]
    } else {
        Seq::empty()
    }
}

/// A note off (or a note on with velocity 0) for `key` on `ch`: a sounding note ends.
pub open spec fn end_note(s: TrackingState, ch: u8, key: u8) -> TrackingState {
    if s.active.contains_key((ch, key)) {
        let start = s.active[(ch, key)];
        TrackingState {
            time: s.time,
            active: s.active.remove((ch, key)),
            channels: s.channels.insert(
                ch,
                notes_of(s.channels, ch).push(NoteRecord { key, start, length: s.time - start }),
            ),
            tempos: s.tempos,
            ok: s.ok && start <= s.time,
        }
    } else {
        s
    }
}

/// One event: the clock advances by the event's delta, then the event takes effect.
pub open spec fn step(s: TrackingState, ev: SmfEvent) -> TrackingState {
    let t = s.time + ev.delta;
    let s1 = TrackingState {
        time: t,
        active: s.active,
        channels: s.channels,
        tempos: s.tempos,
        ok: s.ok && t <= u32::MAX,
    };
    match ev.kind {
        SmfEventKind::NoteOn { channel, key, velocity } => if velocity == 0 {
            end_note(s1, channel, key)
        } else {
            TrackingState {
                time: s1.time,
                active: s1.active.insert((channel, key), t),
                channels: s1.channels,
                tempos: s1.tempos,
                ok: s1.ok,
            }
        },
        SmfEventKind::NoteOff { channel, key } => end_note(s1, channel, key),
        SmfEventKind::Tempo(tempo) => TrackingState {
            time: s1.time,
            active: s1.active,
            channels: s1.channels,
            tempos: s1.tempos.push(tempo),
            ok: s1.ok,
        },
        SmfEventKind::Other => s1,
    }
}

pub open spec fn run_events(s: TrackingState, events: Seq<SmfEvent>) -> TrackingState
    decreases events.len(),
{
    if events.len() == 0 {
        s
    } else {
        step(run_events(s, events.drop_last()), events.last())
    }
}

/// The clock restarts at zero at the beginning of each track; sounding notes carry over.
pub open spec fn restart_clock(s: TrackingState) -> TrackingState {
    TrackingState { time: 0, active: s.active, channels: s.channels, tempos: s.tempos, ok: s.ok }
}

pub open spec fn run_tracks(tracks: Seq<Seq<SmfEvent>>) -> TrackingState
    decreases tracks.len(),
{
    if tracks.len() == 0 {
        initial_state()
    } else {
        run_events(restart_clock(run_tracks(tracks.drop_last())), tracks.last())
    }
}

pub open spec fn tracks_in_range(tracks: Seq<Seq<SmfEvent>>) -> bool {
    forall|t: int, e: int|
        0 <= t < tracks.len() && 0 <= e < tracks[t].len() ==> event_in_range(#[trigger] tracks[t][e])
}

/// Ticks per quarter note: the header's value, or 480 for timecode timing.
pub open spec fn ticks_per_quarter(timing: SmfTiming) -> u16 {
    match timing {
        SmfTiming::Metrical(t) => t,
        SmfTiming::Timecode => 480,
    }
}

/// The name that a note is given: `Note {key} in Channel {channel}`.
pub open spec fn note_name(key: u8, channel: u8) -> Seq<char> {
    seq!['N', 'o', 't', 'e', ' '] + decimal(key as nat) + seq![
        ' ',
        'i',
        'n',
        ' ',
        'C',
        'h',
        'a',
        'n',
        'n',
        'e',
        'l',
        ' ',
    ] + decimal(channel as nat)
}

/// A note, with the time it started and how long it sounded, in ticks.
#[derive(Clone, Debug, PartialEq, Eq, Hash)]
pub struct MidiNote {
    pub name: String,
    pub key: usize,
    pub start: u32,
    pub length: u32,
}

pub open spec fn note_matches(note: MidiNote, rec: NoteRecord, channel: u8) -> bool {
    &&& note.name@ == note_name(rec.key, channel)
    &&& note.key == rec.key
    &&& note.start == rec.start
    &&& note.length == rec.length
}

pub open spec fn notes_match(notes: Seq<MidiNote>, recs: Seq<NoteRecord>, channel: u8) -> bool {
    &&& notes.len() == recs.len()
    &&& forall|i: int| 0 <= i < notes.len() ==> note_matches(#[trigger] notes[i], recs[i], channel)
}

/// The notes and tempos of a MIDI file.
#[derive(Debug)]
pub struct Midi {
    /// The time of the last event of the last track, counted from that track's start.
    pub length: u32,
    pub tempos: Vec<u32>,
    pub ticks_per_quarter: u16,
    /// The finished notes of each channel that has any.
    pub channels: HashMap<u8, Vec<MidiNote>>,
}

/// `midi` holds what note tracking over `tracks` gives.
pub open spec fn midi_matches(midi: Midi, timing: SmfTiming, tracks: Seq<Seq<SmfEvent>>) -> bool {
    let s = run_tracks(tracks);
    &&& midi.length == s.time
    &&& midi.tempos@ == s.tempos
    &&& midi.ticks_per_quarter == ticks_per_quarter(timing)
    &&& midi.channels@.dom() == s.channels.dom()
    &&& forall|ch: u8| #[trigger]
        s.channels.contains_key(ch) ==> notes_match(midi.channels@[ch]@, s.channels[ch], ch)
}

/// The tempos of the tempo meta events among `events`, in order.
pub open spec fn tempo_events(events: Seq<SmfEvent>) -> Seq<u32>
    decreases events.len(),
{
    if events.len() == 0 {
        Seq::empty()
    } else {
        let earlier = tempo_events(events.drop_last());
        match events.last().kind {
            SmfEventKind::Tempo(t) => earlier.push(t),
            _ => earlier,
        }
    }
}

/// The tempos of the tempo meta events of all tracks, track after track, each in order.
pub open spec fn track_tempo_events(tracks: Seq<Seq<SmfEvent>>) -> Seq<u32>
    decreases tracks.len(),
{
    if tracks.len() == 0 {
        Seq::empty()
    } else {
        track_tempo_events(tracks.drop_last()) + tempo_events(tracks.last())
    }
}

proof fn lemma_events_append_tempos(s: TrackingState, events: Seq<SmfEvent>)
    ensures
        run_events(s, events).tempos == s.tempos + tempo_events(events),
    decreases events.len(),
{
    if events.len() == 0 {
        assert(s.tempos + Seq::<u32>::empty() =~= s.tempos);
    } else {
        lemma_events_append_tempos(s, events.drop_last());
        let before = run_events(s, events.drop_last());
        let ev = events.last();
        match ev.kind {
            SmfEventKind::Tempo(t) => {
                assert(s.tempos + tempo_events(events) =~= (s.tempos + tempo_events(events.drop_last())).push(t));
            },
            SmfEventKind::NoteOn { channel, key, velocity } => {
                assert(step(before, ev).tempos == before.tempos);
            },
            SmfEventKind::NoteOff { channel, key } => {
                assert(step(before, ev).tempos == before.tempos);
            },
            SmfEventKind::Other => {},
        }
    }
}

/// The tempos that note tracking collects are every tempo meta event of the file, track
/// after track and in order within a track: none is dropped, none is added, and a later
/// tempo never replaces an earlier one.
pub proof fn tempos_are_the_tempo_events(tracks: Seq<Seq<SmfEvent>>)
    ensures
        run_tracks(tracks).tempos == track_tempo_events(tracks),
    decreases tracks.len(),
{
    if tracks.len() > 0 {
        tempos_are_the_tempo_events(tracks.drop_last());
        lemma_events_append_tempos(restart_clock(run_tracks(tracks.drop_last())), tracks.last());
    }
}

/// A loaded file's tempos are its tempo meta events, in order.
pub proof fn loaded_tempos_are_the_tempo_events(midi: Midi, timing: SmfTiming, tracks: Seq<Seq<SmfEvent>>)
    requires
        midi_matches(midi, timing, tracks),
    ensures
        midi.tempos@ == track_tempo_events(tracks),
        midi.tempos@.len() == track_tempo_events(tracks).len(),
{
    tempos_are_the_tempo_events(tracks);
}

/// A note sounds from its note-on to the event that ends it, a note-off or a note-on
/// with velocity 0 for the same channel and key: it is recorded on its channel with the
/// time of its note-on as start and the time between the two events as length, and
/// nothing is left sounding.
pub proof fn a_note_lasts_from_on_to_off(channel: u8, key: u8, velocity: u8, end: SmfEventKind, d1: u32, d2: u32)
    requires
        velocity > 0,
        end == (SmfEventKind::NoteOff { channel, key }) || end == (SmfEventKind::NoteOn { channel, key, velocity: 0 }),
    ensures
        ({
            let s = run_tracks(seq![seq![SmfEvent { delta: d1, kind: SmfEventKind::NoteOn { channel, key, velocity } }, SmfEvent { delta: d2, kind: end }]]);
            &&& s.channels == map![channel => seq![NoteRecord { key, start: d1 as int, length: d2 as int }]]
            &&& s.active == Map::<(u8, u8), int>::empty()
            &&& s.time == d1 + d2
            &&& s.tempos == Seq::<u32>::empty()
        }),
{
    let on = SmfEvent { delta: d1, kind: SmfEventKind::NoteOn { channel, key, velocity } };
    let off = SmfEvent { delta: d2, kind: end };
    let track = seq![on, off];
    let tracks = seq![track];
    assert(tracks.drop_last() =~= Seq::<Seq<SmfEvent>>::empty());
    assert(tracks.last() == track);
    let s0 = restart_clock(run_tracks(tracks.drop_last()));
    assert(s0 == restart_clock(initial_state()));
    assert(track.drop_last() =~= seq![on]);
    assert(track.drop_last().drop_last() =~= Seq::<SmfEvent>::empty());
    assert(track.drop_last().last() == on);
    let s1 = run_events(s0, seq![on]);
    assert(s1 == step(run_events(s0, Seq::<SmfEvent>::empty()), on));
    assert(s1.active == Map::<(u8, u8), int>::empty().insert((channel, key), d1 as int));
    assert(s1.time == d1);
    let s2 = run_events(s0, track);
    assert(s2 == step(s1, off));
    assert(s2.channels =~= map![channel => seq![NoteRecord { key, start: d1 as int, length: d2 as int }]]);
    assert(s2.active =~= Map::<(u8, u8), int>::empty());
}

/// Why a MIDI file could not be read.
#[derive(Clone, Copy, Debug, PartialEq, Eq)]
pub enum MidiError {
    /// midly refused the bytes.
    Parse,
    /// A time left the range of `u32`, or a note ended before it started.
    Timing,
}

} // verus!

verus! {

/// The events of each track, in order.
pub open spec fn track_views(tracks: Seq<Vec<SmfEvent>>) -> Seq<Seq<SmfEvent>> {
    tracks.map_values(|t: Vec<SmfEvent>| t@)
}

pub open spec fn slot(channel: u8, key: u8) -> int {
    channel as int * 128 + key as int
}

/// Note tracking as it runs: the clock, the start of each sounding note by slot, the
/// finished notes of each of the 16 channels, and the tempos.
struct Tracker {
    time: u32,
    active: Vec<Option<u32>>,
    channels: Vec<Vec<MidiNote>>,
    tempos: Vec<u32>,
}

impl Tracker {
    spec fn rel(&self, s: TrackingState) -> bool {
        &&& s.ok
        &&& self.time == s.time
        &&& self.active.len() == 2048
        &&& forall|c: u8, k: u8|
            c < 16 && k < 128 ==> match #[trigger] self.active@[slot(c, k)] {
                Some(v) => s.active.contains_key((c, k)) && s.active[(c, k)] == v,
                None => !s.active.contains_key((c, k)),
            }
        &&& forall|p: (u8, u8)| #[trigger] s.active.contains_key(p) ==> p.0 < 16 && p.1 < 128
        &&& self.channels.len() == 16
        &&& forall|c: u8|
            c < 16 ==> notes_match(#[trigger] self.channels@[c as int]@, notes_of(s.channels, c), c)
        &&& forall|c: u8| c < 16 ==> (#[trigger] s.channels.contains_key(c) <==> self.channels@[c as int]@.len() > 0)
        &&& forall|c: u8| #[trigger] s.channels.contains_key(c) ==> c < 16
        &&& self.tempos@ == s.tempos
    }

    fn new() -> (r: Tracker)
        ensures
            r.rel(initial_state()),
    {
        let mut active: Vec<Option<u32>> = Vec::new();
        let mut i: usize = 0;
        while i < 2048
            invariant
                i <= 2048,
                active.len() == i,
                forall|j: int| 0 <= j < i ==> active@[j] is None,
            decreases 2048 - i,
        {
            active.push(None);
            i = i + 1;
        }
        let mut channels: Vec<Vec<MidiNote>> = Vec::new();
        let mut c: usize = 0;
        while c < 16
            invariant
                c <= 16,
                channels.len() == c,
                forall|j: int| 0 <= j < c ==> channels@[j]@.len() == 0,
            decreases 16 - c,
        {
            channels.push(Vec::new());
            c = c + 1;
        }
        let r = Tracker { time: 0, active, channels, tempos: Vec::new() };
        assert forall|c: u8, k: u8| c < 16 && k < 128 implies match #[trigger] r.active@[slot(c, k)] {
            Some(v) => initial_state().active.contains_key((c, k)) && initial_state().active[(c, k)] == v,
            None => !initial_state().active.contains_key((c, k)),
        } by {
            assert(r.active@[slot(c, k)] is None);
        }
        assert forall|c: u8| c < 16 implies notes_match(#[trigger] r.channels@[c as int]@, notes_of(initial_state().channels, c), c) by {
            assert(r.channels@[c as int]@.len() == 0);
        }
        r
    }

    fn make_note(key: u8, channel: u8, start: u32, length: u32) -> (n: MidiNote)
        ensures
            note_matches(n, NoteRecord { key, start: start as int, length: length as int }, channel),
    {
        let mut name = String::new();
        push_str(&mut name, "Note ");
        push_decimal(&mut name, key as u64);
        push_str(&mut name, " in Channel ");
        push_decimal(&mut name, channel as u64);
        proof {
            reveal_strlit("Note ");
            reveal_strlit(" in Channel ");
            assert(name@ =~= note_name(key, channel));
        }
        MidiNote { name, key: key as usize, start, length }
    }

    fn end_note(&mut self, channel: u8, key: u8, Ghost(s): Ghost<TrackingState>) -> (ok: bool)
        requires
            old(self).rel(s),
            channel < 16,
            key < 128,
        ensures
            ok == end_note(s, channel, key).ok,
            ok ==> final(self).rel(end_note(s, channel, key)),
    {
        let idx = channel as usize * 128 + key as usize;
        assert(idx == slot(channel, key));
        match self.active[idx] {
            None => {
                assert(!s.active.contains_key((channel, key)));
                true
            },
            Some(start) => {
                assert(s.active.contains_key((channel, key)));
                if start > self.time {
                    return false;
                }
                let length = self.time - start;
                let note = Tracker::make_note(key, channel, start, length);
                self.active.set(idx, None);
                let mut notes: Vec<MidiNote> = Vec::new();
                self.channels.set_and_swap(channel as usize, &mut notes);
                let ghost before = notes@;
                notes.push(note);
                self.channels.set(channel as usize, notes);
                let ghost s2 = end_note(s, channel, key);
                let ghost rec = NoteRecord { key, start: start as int, length: length as int };
                proof {
                    assert(s2.channels[channel] == notes_of(s.channels, channel).push(rec));
                    assert forall|c: u8, k: u8| c < 16 && k < 128 implies match #[trigger] self.active@[slot(c, k)] {
                        Some(v) => s2.active.contains_key((c, k)) && s2.active[(c, k)] == v,
                        None => !s2.active.contains_key((c, k)),
                    } by {
                        if c != channel || k != key {
                            assert(slot(c, k) != slot(channel, key));
                            assert(self.active@[slot(c, k)] == old(self).active@[slot(c, k)]);
                        }
                    }
                    assert forall|c: u8| c < 16 implies notes_match(#[trigger] self.channels@[c as int]@, notes_of(s2.channels, c), c) by {
                        if c == channel {
                            assert(self.channels@[c as int]@ == before.push(note));
                            assert forall|i: int| 0 <= i < before.len() + 1 implies note_matches(#[trigger] before.push(note)[i], notes_of(s.channels, c).push(rec)[i], c) by {
                                if i < before.len() {
                                    assert(note_matches(before[i], notes_of(s.channels, c)[i], c));
                                }
                            }
                        } else {
                            assert(self.channels@[c as int] == old(self).channels@[c as int]);
                        }
                    }
                    assert forall|c: u8| c < 16 implies (#[trigger] s2.channels.contains_key(c) <==> self.channels@[c as int]@.len() > 0) by {
                        if c != channel {
                            assert(self.channels@[c as int] == old(self).channels@[c as int]);
                        }
                    }
                }
                true
            },
        }
    }

    fn apply(&mut self, ev: SmfEvent, Ghost(s): Ghost<TrackingState>) -> (ok: bool)
        requires
            old(self).rel(s),
            event_in_range(ev),
        ensures
            ok == step(s, ev).ok,
            ok ==> final(self).rel(step(s, ev)),
    {
        let t = self.time as u64 + ev.delta as u64;
        if t > u32::MAX as u64 {
            return false;
        }
        self.time = t as u32;
        let ghost s1 = TrackingState {
            time: t as int,
            active: s.active,
            channels: s.channels,
            tempos: s.tempos,
            ok: s.ok && t <= u32::MAX,
        };
        assert(self.rel(s1));
        match ev.kind {
            SmfEventKind::NoteOn { channel, key, velocity } => {
                if velocity == 0 {
                    self.end_note(channel, key, Ghost(s1))
                } else {
                    let idx = channel as usize * 128 + key as usize;
                    self.active.set(idx, Some(t as u32));
                    let ghost s2 = step(s, ev);
                    proof {
                        assert forall|c: u8, k: u8| c < 16 && k < 128 implies match #[trigger] self.active@[slot(c, k)] {
                            Some(v) => s2.active.contains_key((c, k)) && s2.active[(c, k)] == v,
                            None => !s2.active.contains_key((c, k)),
                        } by {
                            if c != channel || k != key {
                                assert(slot(c, k) != slot(channel, key));
                                assert(self.active@[slot(c, k)] == old(self).active@[slot(c, k)]);
                            }
                        }
                    }
                    true
                }
            },
            SmfEventKind::NoteOff { channel, key } => self.end_note(channel, key, Ghost(s1)),
            SmfEventKind::Tempo(tempo) => {
                self.tempos.push(tempo);
                true
            },
            SmfEventKind::Other => true,
        }
    }
}

} // verus!

verus! {

proof fn lemma_step_keeps_failure(s: TrackingState, ev: SmfEvent)
    requires
        !s.ok,
    ensures
        !step(s, ev).ok,
{
}

proof fn lemma_events_keep_failure(s: TrackingState, events: Seq<SmfEvent>, i: int)
    requires
        0 <= i <= events.len(),
        !run_events(s, events.take(i)).ok,
    ensures
        !run_events(s, events).ok,
    decreases events.len() - i,
{
    if i < events.len() {
        assert(events.take(i + 1).drop_last() =~= events.take(i));
        lemma_step_keeps_failure(run_events(s, events.take(i)), events[i]);
        lemma_events_keep_failure(s, events, i + 1);
    } else {
        assert(events.take(i) =~= events);
    }
}

proof fn lemma_events_failure_from_start(s: TrackingState, events: Seq<SmfEvent>)
    requires
        !s.ok,
    ensures
        !run_events(s, events).ok,
{
    assert(events.take(0) =~= Seq::<SmfEvent>::empty());
    lemma_events_keep_failure(s, events, 0);
}

proof fn lemma_tracks_keep_failure(tracks: Seq<Seq<SmfEvent>>, t: int)
    requires
        0 <= t <= tracks.len(),
        !run_tracks(tracks.take(t)).ok,
    ensures
        !run_tracks(tracks).ok,
    decreases tracks.len() - t,
{
    if t < tracks.len() {
        assert(tracks.take(t + 1).drop_last() =~= tracks.take(t));
        assert(tracks.take(t + 1).last() == tracks[t]);
        lemma_events_failure_from_start(restart_clock(run_tracks(tracks.take(t))), tracks[t]);
        lemma_tracks_keep_failure(tracks, t + 1);
    } else {
        assert(tracks.take(t) =~= tracks);
    }
}

impl Midi {
    /// Runs note tracking over the tracks of a parsed file. `None` exactly when a time
    /// leaves the range of `u32` or a note ends before it started.
    pub fn from_tracks(timing: SmfTiming, tracks: &Vec<Vec<SmfEvent>>) -> (r: Option<Midi>)
        requires
            tracks_in_range(track_views(tracks@)),
        ensures
            r is Some <==> run_tracks(track_views(tracks@)).ok,
            r matches Some(m) ==> midi_matches(m, timing, track_views(tracks@)),
    {
        let ghost all = track_views(tracks@);
        let mut tracker = Tracker::new();
        let mut t: usize = 0;
        assert(all.take(0) =~= Seq::<Seq<SmfEvent>>::empty());
        while t < tracks.len()
            invariant
                t <= tracks.len(),
                all == track_views(tracks@),
                tracks_in_range(all),
                tracker.rel(run_tracks(all.take(t as int))),
            decreases tracks.len() - t,
        {
            let track = &tracks[t];
            let ghost start = restart_clock(run_tracks(all.take(t as int)));
            tracker.time = 0;
            assert(tracker.rel(start));
            assert(all[t as int] == track@);
            let mut e: usize = 0;
            assert(track@.take(0) =~= Seq::<SmfEvent>::empty());
            while e < track.len()
                invariant
                    t < tracks.len(),
                    all == track_views(tracks@),
                    tracks_in_range(all),
                    all[t as int] == track@,
                    start == restart_clock(run_tracks(all.take(t as int))),
                    e <= track.len(),
                    tracker.rel(run_events(start, track@.take(e as int))),
                decreases track.len() - e,
            {
                let ghost before = run_events(start, track@.take(e as int));
                assert(event_in_range(all[t as int][e as int]));
                let ok = tracker.apply(track[e], Ghost(before));
                assert(track@.take(e + 1).drop_last() =~= track@.take(e as int));
                if !ok {
                    proof {
                        lemma_events_keep_failure(start, track@, e + 1);
                        assert(all.take(t + 1).drop_last() =~= all.take(t as int));
                        assert(run_tracks(all.take(t + 1)) == run_events(start, track@));
                        lemma_tracks_keep_failure(all, t + 1);
                    }
                    return None;
                }
                e = e + 1;
            }
            proof {
                assert(track@.take(track@.len() as int) =~= track@);
                assert(all.take(t + 1).drop_last() =~= all.take(t as int));
            }
            t = t + 1;
        }
        assert(all.take(tracks.len() as int) =~= all);
        let ghost fin = run_tracks(all);
        let time = tracker.time;
        let tempos = tracker.tempos;
        let mut per = tracker.channels;
        let ghost orig = per@;
        let mut channels: HashMap<u8, Vec<MidiNote>> = HashMap::new();
        let mut c: usize = 16;
        proof {
            assert(orig.take(16) =~= orig);
        }
        while c > 0
            invariant
                c <= 16,
                orig.len() == 16,
                per@ == orig.take(c as int),
                forall|j: u8| #[trigger] channels@.contains_key(j) <==> (c <= j < 16 && orig[j as int]@.len() > 0),
                forall|j: u8| #[trigger] channels@.contains_key(j) ==> channels@[j] == orig[j as int],
            decreases c,
        {
            broadcast use vstd::std_specs::hash::group_hash_axioms;
            let notes = match per.pop() {
                Some(v) => v,
                None => {
                    assert(false);
                    Vec::new()
                },
            };
            assert(notes == orig[c - 1]);
            assert(per@ =~= orig.take(c - 1));
            let ch = (c - 1) as u8;
            if notes.len() > 0 {
                channels.insert(ch, notes);
            }
            c = c - 1;
        }
        proof {
            assert forall|j: u8| #[trigger] channels@.dom().contains(j) <==> fin.channels.dom().contains(j) by {
                if j < 16 {
                    assert(fin.channels.contains_key(j) <==> orig[j as int]@.len() > 0);
                } else {
                    assert(!fin.channels.contains_key(j));
                }
            }
            assert(channels@.dom() =~= fin.channels.dom());
            assert forall|j: u8| #[trigger] fin.channels.contains_key(j) implies notes_match(channels@[j]@, fin.channels[j], j) by {
                assert(notes_match(orig[j as int]@, notes_of(fin.channels, j), j));
            }
        }
        let ticks = match timing {
            SmfTiming::Metrical(ticks) => ticks,
            SmfTiming::Timecode => 480,
        };
        Some(Midi { length: time, tempos, ticks_per_quarter: ticks, channels })
    }
}

} // verus!

verus! {

fn read_tracks(smf: &midly::Smf<'static>) -> (r: Vec<Vec<SmfEvent>>)
    ensures
        track_views(r@) == smf_tracks(*smf),
        tracks_in_range(track_views(r@)),
{
    let ghost all = smf_tracks(*smf);
    let n = track_count(smf);
    let mut r: Vec<Vec<SmfEvent>> = Vec::new();
    let mut t: usize = 0;
    while t < n
        invariant
            n == all.len(),
            all == smf_tracks(*smf),
            t <= n,
            track_views(r@) == all.take(t as int),
            tracks_in_range(track_views(r@)),
        decreases n - t,
    {
        let len = track_len(smf, t);
        let mut events: Vec<SmfEvent> = Vec::new();
        let mut e: usize = 0;
        while e < len
            invariant
                n == all.len(),
                all == smf_tracks(*smf),
                t < n,
                len == all[t as int].len(),
                e <= len,
                events@ == all[t as int].take(e as int),
                forall|i: int| 0 <= i < e ==> event_in_range(#[trigger] events@[i]),
            decreases len - e,
        {
            let ev = track_event(smf, t, e);
            events.push(ev);
            assert(events@ =~= all[t as int].take(e + 1));
            e = e + 1;
        }
        assert(events@ =~= all[t as int]);
        let ghost before = r@;
        assert(track_views(before).len() == before.len());
        assert(before.len() == t);
        r.push(events);
        proof {
            assert(track_views(r@) =~= all.take(t + 1)) by {
                assert forall|i: int| 0 <= i < t + 1 implies track_views(r@)[i] == all.take(t + 1)[i] by {
                    if i < t {
                        assert(track_views(before)[i] == all.take(t as int)[i]);
                    }
                }
            }
            assert forall|a: int, b: int| 0 <= a < track_views(r@).len() && 0 <= b < track_views(r@)[a].len()
                implies event_in_range(#[trigger] track_views(r@)[a][b]) by {
                if a < t {
                    assert(track_views(r@)[a] == track_views(before)[a]);
                }
            }
        }
        t = t + 1;
    }
    assert(all.take(n as int) =~= all);
    r
}

/// Whether note tracking over a parsed file stays in range.
pub open spec fn file_tracks_in_time(file: (SmfTiming, Seq<Seq<SmfEvent>>)) -> bool {
    run_tracks(file.1).ok
}

impl Midi {
    /// Reads the notes and tempos of a MIDI file. The file must parse, and its times must
    /// stay within `u32` with every note ending after it started.
    pub fn load_midi(bytes: &[u8]) -> (r: Midi)
        requires
            midi_file(bytes@) matches Some(f) && file_tracks_in_time(f),
        ensures
            midi_matches(r, midi_file(bytes@)->Some_0.0, midi_file(bytes@)->Some_0.1),
    {
        match parse_smf(bytes) {
            Ok(smf) => {
                let timing = header_timing(&smf);
                let tracks = read_tracks(&smf);
                match Midi::from_tracks(timing, &tracks) {
                    Some(m) => m,
                    None => {
                        assert(false);
                        Midi { length: 0, tempos: Vec::new(), ticks_per_quarter: 0, channels: HashMap::new() }
                    },
                }
            },
            Err(_) => {
                assert(false);
                Midi { length: 0, tempos: Vec::new(), ticks_per_quarter: 0, channels: HashMap::new() }
            },
        }
    }

    /// Reads a MIDI file, or says why it cannot be read.
    pub fn try_load_midi(bytes: &[u8]) -> (r: Result<Midi, MidiError>)
        ensures
            match midi_file(bytes@) {
                None => r == Err::<Midi, MidiError>(MidiError::Parse),
                Some(f) => if file_tracks_in_time(f) {
                    r matches Ok(m) && midi_matches(m, f.0, f.1)
                } else {
                    r == Err::<Midi, MidiError>(MidiError::Timing)
                },
            },
    {
        match parse_smf(bytes) {
            Ok(smf) => {
                let timing = header_timing(&smf);
                let tracks = read_tracks(&smf);
                match Midi::from_tracks(timing, &tracks) {
                    Some(_) => Ok(Midi::load_midi(bytes)),
                    None => Err(MidiError::Timing),
                }
            },
            Err(_) => Err(MidiError::Parse),
        }
    }
}

} // verus!
