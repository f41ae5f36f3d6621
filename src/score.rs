use vstd::prelude::*;

use midly::live::LiveEvent;

verus! {

/// A note-on with a given pitch at a given time in a score or in a live performance.
///
/// `time` counts microseconds from the score's origin (or, for live notes, from the Unix epoch).
/// `pitch` and `velocity` are 7-bit MIDI values.
#[derive(Clone, Copy, Debug, PartialEq, Eq, Structural)]
pub struct ScoreNote {
    pub time: u64,
    pub pitch: u8,
    pub velocity: u8,
}

impl ScoreNote {
    /// Pitch and velocity fit in seven bits.
    pub open spec fn wf(self) -> bool {
        self.pitch < 128 && self.velocity < 128
    }
}

/// Every note of `s` is well formed.
pub open spec fn notes_wf(s: Seq<ScoreNote>) -> bool {
    forall|i: int| 0 <= i < s.len() ==> (#[trigger] s[i]).wf()
}

/// The notes of `s` come in non-decreasing order of time.
pub open spec fn sorted_by_time(s: Seq<ScoreNote>) -> bool {
    forall|i: int, j: int| 0 <= i <= j < s.len() ==> (#[trigger] s[i]).time <= (#[trigger] s[j]).time
}

/// A MIDI channel message, with its 7-bit data (and 14-bit pitch bend) as plain integers.
#[derive(Clone, Copy, Debug, PartialEq, Eq, Structural)]
pub enum MidiMessage {
    NoteOff { key: u8, vel: u8 },
    NoteOn { key: u8, vel: u8 },
    Aftertouch { key: u8, vel: u8 },
    Controller { controller: u8, value: u8 },
    ProgramChange { program: u8 },
    ChannelAftertouch { vel: u8 },
    PitchBend { bend: u16 },
}

impl MidiMessage {
    /// Every data value fits its field on the wire.
    pub open spec fn wf(self) -> bool {
        match self {
            MidiMessage::NoteOff { key, vel } => key < 128 && vel < 128,
            MidiMessage::NoteOn { key, vel } => key < 128 && vel < 128,
            MidiMessage::Aftertouch { key, vel } => key < 128 && vel < 128,
            MidiMessage::Controller { controller, value } => controller < 128 && value < 128,
            MidiMessage::ProgramChange { program } => program < 128,
            MidiMessage::ChannelAftertouch { vel } => vel < 128,
            MidiMessage::PitchBend { bend } => bend < 16384,
        }
    }
}

/// The bytes of a MIDI channel message on the wire: the status byte (message kind in the
/// high nibble, channel in the low one), then the data bytes.
pub open spec fn spec_wire_bytes(channel: u8, message: MidiMessage) -> Seq<u8> {
    match message {
        MidiMessage::NoteOff { key, vel } => seq![(0x80 + channel) as u8, key, vel],
        MidiMessage::NoteOn { key, vel } => seq![(0x90 + channel) as u8, key, vel],
        MidiMessage::Aftertouch { key, vel } => seq![(0xA0 + channel) as u8, key, vel],
        MidiMessage::Controller { controller, value } => seq![
            (0xB0 + channel) as u8,
            controller,
            value,
        ],
        MidiMessage::ProgramChange { program } => seq![(0xC0 + channel) as u8, program],
        MidiMessage::ChannelAftertouch { vel } => seq![(0xD0 + channel) as u8, vel],
        MidiMessage::PitchBend { bend } => seq![
            (0xE0 + channel) as u8,
            (bend % 128) as u8,
            (bend / 128) as u8,
        ],
    }
}

/// A MIDI channel message at a given time (microseconds from the score's origin).
#[derive(Clone, Copy, Debug, PartialEq, Eq, Structural)]
pub struct ScoreEvent {
    pub time: u64,
    pub channel: u8,
    pub message: MidiMessage,
}

impl ScoreEvent {
    pub open spec fn wf(self) -> bool {
        self.channel < 16 && self.message.wf()
    }
}

/// Every event of `s` is well formed.
pub open spec fn events_wf(s: Seq<ScoreEvent>) -> bool {
    forall|i: int| 0 <= i < s.len() ==> (#[trigger] s[i]).wf()
}

/// Encodes a MIDI channel message as a standalone live event: the status byte, then the
/// data bytes (a pitch bend as its low seven bits, then its high seven bits).
pub fn write_midi_event(channel: u8, message: MidiMessage) -> (r: Vec<u8>)
    requires
        channel < 16,
        message.wf(),
    ensures
        r@ == spec_wire_bytes(channel, message),
{
    let mut buf: Vec<u8> = Vec::new();
    match message {
        MidiMessage::NoteOff { key, vel } => {
            buf.push(0x80 + channel);
            buf.push(key);
            buf.push(vel);
        },
        MidiMessage::NoteOn { key, vel } => {
            buf.push(0x90 + channel);
            buf.push(key);
            buf.push(vel);
        },
        MidiMessage::Aftertouch { key, vel } => {
            buf.push(0xA0 + channel);
            buf.push(key);
            buf.push(vel);
        },
        MidiMessage::Controller { controller, value } => {
            buf.push(0xB0 + channel);
            buf.push(controller);
            buf.push(value);
        },
        MidiMessage::ProgramChange { program } => {
            buf.push(0xC0 + channel);
            buf.push(program);
        },
        MidiMessage::ChannelAftertouch { vel } => {
            buf.push(0xD0 + channel);
            buf.push(vel);
        },
        MidiMessage::PitchBend { bend } => {
            buf.push(0xE0 + channel);
            buf.push((bend % 128) as u8);
            buf.push((bend / 128) as u8);
        },
    }
    assert(buf@ =~= spec_wire_bytes(channel, message));
    buf
}


/// Relies on midly's `LiveEvent::parse`: raw bytes are a note-on exactly when the status byte
/// lies in `0x90..=0x9F` and two data bytes below `0x80` follow; key and velocity are those
/// data bytes.
#[verifier::external_body]
fn parse_note_on(bytes: &[u8]) -> (r: Option<(u8, u8)>)
    ensures
        r is Some <==> (bytes@.len() >= 3 && 0x90 <= bytes@[0] <= 0x9F && bytes@[1] < 128 && bytes@[2] < 128),
        r is Some ==> r->0 == (bytes@[1], bytes@[2]),
{
    match LiveEvent::parse(bytes) {
        Ok(LiveEvent::Midi { message: midly::MidiMessage::NoteOn { key, vel }, .. }) => Some(
            (key.as_int(), vel.as_int()),
        ),
        _ => None,
    }
}

/// The live note for raw MIDI bytes received at `time`, where they hold a note-on.
pub fn live_note_on(time: u64, bytes: &[u8]) -> (r: Option<ScoreNote>)
    ensures
        r is Some <==> bytes@.len() >= 3 && 0x90 <= bytes@[0] <= 0x9F && bytes@[1] < 128
            && bytes@[2] < 128,
        r is Some ==> r->0 == (ScoreNote { time, pitch: bytes@[1], velocity: bytes@[2] })
            && r->0.wf(),
{
    match parse_note_on(bytes) {
        Some((key, vel)) => Some(ScoreNote { time, pitch: key, velocity: vel }),
        None => None,
    }
}

/// The note-ons with non-zero velocity among `events`, in order.
pub open spec fn spec_note_ons(events: Seq<ScoreEvent>) -> Seq<ScoreNote>
    decreases events.len(),
{
    if events.len() == 0 {
        Seq::empty()
    } else {
        let rest = spec_note_ons(events.drop_last());
        let e = events.last();
        match e.message {
            MidiMessage::NoteOn { key, vel } => if vel != 0 {
                rest.push(ScoreNote { time: e.time, pitch: key, velocity: vel })
            } else {
                rest
            },
            _ => rest,
        }
    }
}

/// The note-ons with non-zero velocity among `events`, as score notes.
pub fn convert_midi_note_ons(events: Vec<ScoreEvent>) -> (r: Vec<ScoreNote>)
    ensures
        r@ == spec_note_ons(events@),
{
    let mut r: Vec<ScoreNote> = Vec::new();
    let mut i: usize = 0;
    while i < events.len()
        invariant
            i <= events@.len(),
            r@ == spec_note_ons(events@.take(i as int)),
        decreases events@.len() - i,
    {
        let e = events[i];
        assert(events@.take(i + 1).drop_last() == events@.take(i as int));
        assert(events@.take(i + 1).last() == e);
        match e.message {
            MidiMessage::NoteOn { key, vel } => {
                if vel != 0 {
                    r.push(ScoreNote { time: e.time, pitch: key, velocity: vel });
                }
            },
            _ => {},
        }
        i = i + 1;
    }
    assert(events@.take(events@.len() as int) == events@);
    r
}

/// A note with its time rounded down to the millisecond and a non-zero velocity set to 100.
pub open spec fn spec_simplified(n: ScoreNote) -> ScoreNote {
    ScoreNote {
        time: (n.time / 1000 * 1000) as u64,
        pitch: n.pitch,
        velocity: if n.velocity == 0 {
            0
        } else {
            100
        },
    }
}

/// Makes a copy of the score changing all non-zero velocities to 100 and rounding times down
/// to the millisecond.
pub fn simplify_score(score: Vec<ScoreNote>) -> (r: Vec<ScoreNote>)
    ensures
        r@ == score@.map_values(|n: ScoreNote| spec_simplified(n)),
{
    let mut r: Vec<ScoreNote> = Vec::new();
    let mut i: usize = 0;
    while i < score.len()
        invariant
            i <= score@.len(),
            r@ == score@.take(i as int).map_values(|n: ScoreNote| spec_simplified(n)),
        decreases score@.len() - i,
    {
        let n = score[i];
        let velocity: u8 = if n.velocity == 0 {
            0
        } else {
            100
        };
        r.push(ScoreNote { time: n.time / 1000 * 1000, pitch: n.pitch, velocity });
        i = i + 1;
        assert(r@ =~= score@.take(i as int).map_values(|n: ScoreNote| spec_simplified(n)));
    }
    assert(score@.take(score@.len() as int) == score@);
    r
}

/// The MIDI channels to take from one track of a MIDI file.
#[derive(Clone, Debug, PartialEq, Eq)]
pub struct Channels {
    pub track: usize,
    pub midi_channels: Vec<u8>,
}

/// All sixteen MIDI channels, `0 .. 16`.
pub open spec fn spec_all_channels() -> Seq<u8> {
    Seq::new(16, |c: int| c as u8)
}

/// The channels that `selection` selects on each of `n` tracks: all channels of every track
/// when `selection` is empty; else, for each track, the channels of the last entry naming it,
/// or none.
pub open spec fn spec_track_channels(selection: Seq<Channels>, n: int) -> Seq<Seq<u8>> {
    if selection.len() == 0 {
        Seq::new(n as nat, |t: int| spec_all_channels())
    } else {
        spec_apply_channels(selection, Seq::new(n as nat, |t: int| Seq::<u8>::empty()))
    }
}

/// `base` with the entries of `selection` applied in order.
pub open spec fn spec_apply_channels(selection: Seq<Channels>, base: Seq<Seq<u8>>) -> Seq<Seq<u8>>
    decreases selection.len(),
{
    if selection.len() == 0 {
        base
    } else {
        let c = selection.last();
        spec_apply_channels(selection.drop_last(), base).update(c.track as int, c.midi_channels@)
    }
}

/// A copy of a list of channels.
fn copy_channels(v: &Vec<u8>) -> (r: Vec<u8>)
    ensures
        r@ == v@,
{
    let mut r: Vec<u8> = Vec::new();
    let mut i: usize = 0;
    while i < v.len()
        invariant
            i <= v@.len(),
            r@ == v@.take(i as int),
        decreases v@.len() - i,
    {
        r.push(v[i]);
        i = i + 1;
        assert(r@ =~= v@.take(i as int));
    }
    assert(v@.take(v@.len() as int) == v@);
    r
}

/// For each of `tracks_available` tracks, the MIDI channels to take from it; an error where
/// `selection` names a track beyond them.
pub fn make_tracks_and_channels_index(selection: &Vec<Channels>, tracks_available: usize) -> (r:
    Result<Vec<Vec<u8>>, String>)
    ensures
        (exists|k: int| 0 <= k < selection@.len() && #[trigger] selection@[k].track >= tracks_available)
            <==> r is Err,
        r is Ok ==> r->Ok_0@.len() == tracks_available && forall|t: int|
            0 <= t < tracks_available ==> (#[trigger] r->Ok_0@[t])@ == spec_track_channels(
                selection@,
                tracks_available as int,
            )[t],
{
    let mut track_channels: Vec<Vec<u8>> = Vec::new();
    let empty = selection.len() == 0;
    let mut t: usize = 0;
    while t < tracks_available
        invariant
            t <= tracks_available,
            empty == (selection@.len() == 0),
            track_channels@.len() == t,
            forall|u: int|
                0 <= u < t ==> (#[trigger] track_channels@[u])@ == if empty {
                    spec_all_channels()
                } else {
                    Seq::<u8>::empty()
                },
        decreases tracks_available - t,
    {
        let mut all: Vec<u8> = Vec::new();
        if empty {
            let mut c: u8 = 0;
            while c < 16
                invariant
                    c <= 16,
                    all@ == Seq::new(c as nat, |k: int| k as u8),
                decreases 16 - c,
            {
                all.push(c);
                c = c + 1;
                assert(all@ =~= Seq::new(c as nat, |k: int| k as u8));
            }
            assert(all@ =~= spec_all_channels());
        }
        track_channels.push(all);
        t = t + 1;
    }
    let mut k: usize = 0;
    while k < selection.len()
        invariant
            k <= selection@.len(),
            empty == (selection@.len() == 0),
            track_channels@.len() == tracks_available,
            forall|j: int| 0 <= j < k ==> #[trigger] selection@[j].track < tracks_available,
            forall|u: int|
                0 <= u < tracks_available ==> (#[trigger] track_channels@[u])@ == if empty {
                    spec_all_channels()
                } else {
                    spec_apply_channels(
                        selection@.take(k as int),
                        Seq::new(tracks_available as nat, |t: int| Seq::<u8>::empty()),
                    )[u]
                },
        decreases selection@.len() - k,
    {
        let c = &selection[k];
        if c.track >= tracks_available {
            let mut msg = String::from_str("MIDI file has only ");
            crate::text::push_decimal(&mut msg, tracks_available);
            msg.append(" tracks, track ");
            let requested = highest_track(selection);
            if requested < usize::MAX {
                crate::text::push_decimal(&mut msg, requested + 1);
            }
            msg.append(" requested");
            return Err(msg);
        }
        let chans = copy_channels(&c.midi_channels);
        proof {
            let base = Seq::new(tracks_available as nat, |t: int| Seq::<u8>::empty());
            let tk = selection@.take(k as int);
            assert forall|j: int| 0 <= j < tk.len() implies #[trigger] tk[j].track < base.len() by {
                assert(tk[j] == selection@[j]);
            }
            lemma_apply_channels_len(tk, base);
            assert(selection@.take(k + 1).drop_last() == tk);
            assert(selection@.take(k + 1).last() == selection@[k as int]);
        }
        let ghost tc0 = track_channels@;
        track_channels.set(c.track, chans);
        proof {
            let base = Seq::new(tracks_available as nat, |t: int| Seq::<u8>::empty());
            let tk = selection@.take(k as int);
            let tk1 = selection@.take(k + 1);
            assert(spec_apply_channels(tk1, base) == spec_apply_channels(tk, base).update(
                c.track as int,
                c.midi_channels@,
            ));
            assert(!empty);
            assert forall|u: int| 0 <= u < tracks_available implies (
            #[trigger] track_channels@[u])@ == spec_apply_channels(tk1, base)[u] by {
                if u != c.track {
                    assert(track_channels@[u] == tc0[u]);
                }
            }
        }
        k = k + 1;
    }
    proof {
        assert(selection@.take(selection@.len() as int) == selection@);
    }
    assert forall|t: int| 0 <= t < tracks_available implies (#[trigger] track_channels@[t])@
        == spec_track_channels(selection@, tracks_available as int)[t] by {
        if !empty {
            lemma_apply_channels_len(selection@, Seq::new(tracks_available as nat, |t: int| Seq::<u8>::empty()));
        }
    }
    Ok(track_channels)
}

/// The highest track that `selection` names (0 when it names none).
fn highest_track(selection: &Vec<Channels>) -> (r: usize)
    ensures
        forall|k: int| 0 <= k < selection@.len() ==> #[trigger] selection@[k].track <= r,
{
    let mut r: usize = 0;
    let mut k: usize = 0;
    while k < selection.len()
        invariant
            k <= selection@.len(),
            forall|j: int| 0 <= j < k ==> #[trigger] selection@[j].track <= r,
        decreases selection@.len() - k,
    {
        if selection[k].track > r {
            r = selection[k].track;
        }
        k = k + 1;
    }
    r
}

proof fn lemma_apply_channels_len(selection: Seq<Channels>, base: Seq<Seq<u8>>)
    requires
        forall|k: int| 0 <= k < selection.len() ==> #[trigger] selection[k].track < base.len(),
    ensures
        spec_apply_channels(selection, base).len() == base.len(),
    decreases selection.len(),
{
    if selection.len() > 0 {
        let rest = selection.drop_last();
        assert forall|k: int| 0 <= k < rest.len() implies #[trigger] rest[k].track < base.len() by {
            assert(rest[k] == selection[k]);
        }
        lemma_apply_channels_len(rest, base);
        assert(selection.last() == selection[selection.len() - 1]);
    }
}

proof fn lemma_track_channels_len(selection: Seq<Channels>, n: int)
    requires
        0 <= n,
        forall|k: int| 0 <= k < selection.len() ==> #[trigger] selection[k].track < n,
    ensures
        spec_track_channels(selection, n).len() == n,
{
    if selection.len() > 0 {
        lemma_apply_channels_len(selection, Seq::new(n as nat, |t: int| Seq::<u8>::empty()));
    }
}

/// A MIDI event of a file, with the track it comes from.
#[derive(Clone, Copy, Debug, PartialEq, Eq, Structural)]
pub struct TrackEvent {
    pub track: usize,
    pub event: ScoreEvent,
}

/// The events, in order, whose channel is selected for their track in `selected`.
pub open spec fn spec_selected_events(events: Seq<TrackEvent>, selected: Seq<Seq<u8>>) -> Seq<
    ScoreEvent,
>
    decreases events.len(),
{
    if events.len() == 0 {
        Seq::empty()
    } else {
        let rest = spec_selected_events(events.drop_last(), selected);
        let e = events.last();
        if e.track < selected.len() && selected[e.track as int].contains(e.event.channel) {
            rest.push(e.event)
        } else {
            rest
        }
    }
}

/// Joins the MIDI events of a file (merged over its tracks, in time order) on the chosen
/// channels of the chosen tracks; an error where `channels` names a track beyond
/// `tracks_available`.
pub fn smf_to_events(events: &Vec<TrackEvent>, channels: &Vec<Channels>, tracks_available: usize) -> (r:
    Result<Vec<ScoreEvent>, String>)
    ensures
        (exists|k: int| 0 <= k < channels@.len() && #[trigger] channels@[k].track >= tracks_available)
            <==> r is Err,
        r is Ok ==> r->Ok_0@ == spec_selected_events(
            events@,
            spec_track_channels(channels@, tracks_available as int),
        ),
{
    let selected_channels_by_track = make_tracks_and_channels_index(channels, tracks_available)?;
    let ghost sel = spec_track_channels(channels@, tracks_available as int);
    proof {
        assert forall|k: int| 0 <= k < channels@.len() implies #[trigger] channels@[k].track
            < tracks_available by {}
        lemma_track_channels_len(channels@, tracks_available as int);
    }
    let mut r: Vec<ScoreEvent> = Vec::new();
    let mut i: usize = 0;
    while i < events.len()
        invariant
            i <= events@.len(),
            selected_channels_by_track@.len() == tracks_available,
            forall|t: int|
                0 <= t < tracks_available ==> (#[trigger] selected_channels_by_track@[t])@
                    == sel[t],
            sel.len() == tracks_available,
            r@ == spec_selected_events(events@.take(i as int), sel),
        decreases events@.len() - i,
    {
        let e = events[i];
        assert(events@.take(i + 1).drop_last() == events@.take(i as int));
        assert(events@.take(i + 1).last() == e);
        if e.track < selected_channels_by_track.len() {
            let chans = &selected_channels_by_track[e.track];
            let mut j: usize = 0;
            let mut found = false;
            while j < chans.len()
                invariant
                    j <= chans@.len(),
                    found == chans@.take(j as int).contains(e.event.channel),
                decreases chans@.len() - j,
            {
                let ghost before = chans@.take(j as int);
                assert(chans@.take(j + 1) == before.push(chans@[j as int]));
                if chans[j] == e.event.channel {
                    found = true;
                    assert(chans@.take(j + 1)[j as int] == e.event.channel);
                } else {
                    assert(chans@.take(j + 1).contains(e.event.channel) ==> before.contains(
                        e.event.channel,
                    )) by {
                        if chans@.take(j + 1).contains(e.event.channel) {
                            let w = choose|w: int| 0 <= w < j + 1 && #[trigger] chans@.take(j + 1)[w] == e.event.channel;
                            assert(w < j);
                            assert(before[w] == e.event.channel);
                        }
                    }
                    assert(before.contains(e.event.channel) ==> chans@.take(j + 1).contains(
                        e.event.channel,
                    )) by {
                        if before.contains(e.event.channel) {
                            let w = choose|w: int| 0 <= w < j && #[trigger] before[w] == e.event.channel;
                            assert(chans@.take(j + 1)[w] == e.event.channel);
                        }
                    }
                }
                j = j + 1;
            }
            assert(chans@.take(chans@.len() as int) == chans@);
            if found {
                r.push(e.event);
            }
        }
        i = i + 1;
    }
    assert(events@.take(events@.len() as int) == events@);
    Ok(r)
}


/// The symbol of pitch class `pc`, in upper or lower case.
pub open spec fn spec_note_symbol(pc: int, lower: bool) -> Seq<char> {
    if lower {
        if pc == 0 {
            "c"@
        } else if pc == 1 {
            "c#"@
        } else if pc == 2 {
            "d"@
        } else if pc == 3 {
            "eb"@
        } else if pc == 4 {
            "e"@
        } else if pc == 5 {
            "f"@
        } else if pc == 6 {
            "f#"@
        } else if pc == 7 {
            "g"@
        } else if pc == 8 {
            "ab"@
        } else if pc == 9 {
            "a"@
        } else if pc == 10 {
            "b"@
        } else {
            "h"@
        }
    } else {
        if pc == 0 {
            "C"@
        } else if pc == 1 {
            "C#"@
        } else if pc == 2 {
            "D"@
        } else if pc == 3 {
            "Eb"@
        } else if pc == 4 {
            "E"@
        } else if pc == 5 {
            "F"@
        } else if pc == 6 {
            "F#"@
        } else if pc == 7 {
            "G"@
        } else if pc == 8 {
            "Ab"@
        } else if pc == 9 {
            "A"@
        } else if pc == 10 {
            "B"@
        } else {
            "H"@
        }
    }
}

/// The octave mark of octave `o` (twelve pitches each, from pitch 0).
pub open spec fn spec_octave_mark(o: int) -> Seq<char> {
    if o == 0 {
        "-3"@
    } else if o == 1 {
        "-2"@
    } else if o == 2 {
        "-1"@
    } else if o == 3 {
        ""@
    } else if o == 4 {
        ""@
    } else if o == 5 {
        "1"@
    } else if o == 6 {
        "2"@
    } else if o == 7 {
        "3"@
    } else if o == 8 {
        "4"@
    } else if o == 9 {
        "5"@
    } else {
        "6"@
    }
}

/// The name of a pitch: its symbol (lower case in the octave from pitch 48), then its octave
/// mark.
pub open spec fn spec_pitch_name(pitch: u8) -> Seq<char> {
    let o = pitch / 12;
    spec_note_symbol((pitch % 12) as int, o == 4) + spec_octave_mark(o as int)
}

fn note_symbol(pc: u8, lower: bool) -> (r: &'static str)
    requires
        pc < 12,
    ensures
        r@ == spec_note_symbol(pc as int, lower),
{
    if lower {
        if pc == 0 {
            "c"
        } else if pc == 1 {
            "c#"
        } else if pc == 2 {
            "d"
        } else if pc == 3 {
            "eb"
        } else if pc == 4 {
            "e"
        } else if pc == 5 {
            "f"
        } else if pc == 6 {
            "f#"
        } else if pc == 7 {
            "g"
        } else if pc == 8 {
            "ab"
        } else if pc == 9 {
            "a"
        } else if pc == 10 {
            "b"
        } else {
            "h"
        }
    } else {
        if pc == 0 {
                "C"
            } else if pc == 1 {
                "C#"
            } else if pc == 2 {
                "D"
            } else if pc == 3 {
                "Eb"
            } else if pc == 4 {
                "E"
            } else if pc == 5 {
                "F"
            } else if pc == 6 {
                "F#"
            } else if pc == 7 {
                "G"
            } else if pc == 8 {
                "Ab"
            } else if pc == 9 {
                "A"
            } else if pc == 10 {
                "B"
            } else {
                "H"
            }
    }
}

fn octave_mark(o: u8) -> (r: &'static str)
    requires
        o < 11,
    ensures
        r@ == spec_octave_mark(o as int),
{
    if o == 0 {
        "-3"
    } else if o == 1 {
        "-2"
    } else if o == 2 {
        "-1"
    } else if o == 3 {
        ""
    } else if o == 4 {
        ""
    } else if o == 5 {
        "1"
    } else if o == 6 {
        "2"
    } else if o == 7 {
        "3"
    } else if o == 8 {
        "4"
    } else if o == 9 {
        "5"
    } else {
        "6"
    }
}

/// The name of a MIDI pitch, such as `C1` for 60 or `f#` for 54.
pub fn pitch_to_name(pitch: u8) -> (r: String)
    requires
        pitch < 128,
    ensures
        r@ == spec_pitch_name(pitch),
{
    let octave = pitch / 12;
    let mut r = String::from_str(note_symbol(pitch % 12, octave == 4));
    r.append(octave_mark(octave));
    r
}

} // verus!
