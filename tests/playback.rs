use selim::algo01_homophonopedantic::MatchPerScore;
use selim::cleanup::all_sound_off;
use selim::playback::{encode_midi_event, play_next, play_past_moments, IDLE_WAIT};
use selim::score::{MidiMessage, ScoreEvent, ScoreNote};
use selim::{stretch, StretchFactor};

fn note_on(time: u64, channel: u8, key: u8, vel: u8) -> ScoreEvent {
    ScoreEvent { time, channel, message: MidiMessage::NoteOn { key, vel } }
}

fn scenario() -> (Vec<ScoreNote>, Vec<ScoreNote>, Vec<ScoreEvent>) {
    let expect = vec![ScoreNote { time: 1_000_000, pitch: 60, velocity: 100 }];
    let live = vec![ScoreNote { time: 10_000_000, pitch: 60, velocity: 90 }];
    let playback = vec![note_on(1_000_000, 0, 57, 80), note_on(1_500_000, 0, 59, 80)];
    (expect, live, playback)
}

#[test]
fn scheduler_emits_due_event_with_live_velocity() {
    let (expect, live, playback) = scenario();
    let matches = vec![MatchPerScore::new(0, 0, StretchFactor::unit(), 100, 90)];
    let (msgs, head, wait) =
        play_next(&expect, &live, &playback, 0, &matches, 10_000_000, 0).unwrap();
    assert_eq!(msgs, vec![vec![0x90, 57, 90]]);
    assert_eq!(head, 1);
    assert_eq!(wait, 500_000);
}

#[test]
fn scheduler_emits_all_due_events_at_faster_tempo() {
    let (expect, live, playback) = scenario();
    let k = StretchFactor { live: 1, score: 2 };
    let matches = vec![MatchPerScore::new(0, 0, k, 100, 90)];
    let (msgs, head, wait) =
        play_next(&expect, &live, &playback, 0, &matches, 11_000_000, 0).unwrap();
    assert_eq!(msgs, vec![vec![0x90, 57, 90], vec![0x90, 59, 90]]);
    assert_eq!(head, 2);
    assert_eq!(wait, IDLE_WAIT);
}

#[test]
fn scheduler_idles_past_the_end() {
    let (expect, live, playback) = scenario();
    let (msgs, head, wait) = play_next(&expect, &live, &playback, 2, &vec![], 0, 0).unwrap();
    assert!(msgs.is_empty());
    assert_eq!(head, 2);
    assert_eq!(wait, IDLE_WAIT);
}

#[test]
fn scheduler_errors() {
    let (expect, live, playback) = scenario();
    assert!(play_next(&expect, &live, &playback, 0, &vec![], 10_000_000, 0).is_err());
    let matches = vec![MatchPerScore::new(0, 0, StretchFactor::unit(), 100, 90)];
    // The clock went backwards.
    assert!(play_next(&expect, &live, &playback, 0, &matches, 9_000_000, 0).is_err());
    let beyond = vec![MatchPerScore::new(3, 0, StretchFactor::unit(), 100, 90)];
    assert!(play_next(&expect, &live, &playback, 0, &beyond, 10_000_000, 0).is_err());
    let beyond_live = vec![MatchPerScore::new(0, 4, StretchFactor::unit(), 100, 90)];
    assert!(play_next(&expect, &live, &playback, 0, &beyond_live, 10_000_000, 0).is_err());
}

#[test]
fn scheduler_delay_and_slower_tempo() {
    let (expect, live, playback) = scenario();
    let k = StretchFactor { live: 2, score: 1 };
    let matches = vec![MatchPerScore::new(0, 0, k, 100, 90)];
    // 400 ms of wall time plus 100 ms of delay at half speed is 250 ms of score time.
    let (msgs, head, wait) =
        play_next(&expect, &live, &playback, 1, &matches, 10_400_000, 100_000).unwrap();
    assert!(msgs.is_empty());
    assert_eq!(head, 1);
    assert_eq!(wait, 500_000);
}

#[test]
fn waiting_the_returned_time_reaches_next_event() {
    let (expect, live, playback) = scenario();
    let k = StretchFactor { live: 3, score: 2 };
    let matches = vec![MatchPerScore::new(0, 0, k, 100, 90)];
    let (_, head, wait) =
        play_next(&expect, &live, &playback, 1, &matches, 10_000_000, 0).unwrap();
    assert_eq!(head, 1);
    assert_eq!(wait, 750_000);
    let (msgs, head, _) =
        play_next(&expect, &live, &playback, 1, &matches, 10_000_000 + wait, 0).unwrap();
    assert_eq!(msgs, vec![vec![0x90, 59, 90]]);
    assert_eq!(head, 2);
}

#[test]
fn emission_keeps_score_order() {
    let playback = vec![
        note_on(0, 1, 60, 10),
        note_on(0, 2, 64, 0),
        ScoreEvent { time: 5, channel: 3, message: MidiMessage::Controller { controller: 7, value: 99 } },
        note_on(9, 0, 67, 10),
    ];
    let (first, head) = play_past_moments(&playback, 0, 0, 70);
    assert_eq!(first, vec![vec![0x91, 60, 70], vec![0x92, 64, 0]]);
    let (second, head) = play_past_moments(&playback, head, 9, 70);
    assert_eq!(second, vec![vec![0xB3, 7, 99], vec![0x90, 67, 70]]);
    assert_eq!(head, 4);
    let (all, end) = play_past_moments(&playback, 0, 9, 70);
    assert_eq!(end, 4);
    assert_eq!(all, [first, second].concat());
}

#[test]
fn encoding_of_each_message_kind() {
    let e = |channel: u8, message: MidiMessage| ScoreEvent { time: 0, channel, message };
    assert_eq!(encode_midi_event(&e(2, MidiMessage::NoteOff { key: 60, vel: 5 }), 99), vec![0x82, 60, 5]);
    assert_eq!(encode_midi_event(&e(15, MidiMessage::NoteOn { key: 61, vel: 1 }), 99), vec![0x9F, 61, 99]);
    assert_eq!(encode_midi_event(&e(0, MidiMessage::NoteOn { key: 61, vel: 0 }), 99), vec![0x90, 61, 0]);
    assert_eq!(encode_midi_event(&e(1, MidiMessage::Aftertouch { key: 3, vel: 4 }), 99), vec![0xA1, 3, 4]);
    assert_eq!(encode_midi_event(&e(1, MidiMessage::ProgramChange { program: 12 }), 99), vec![0xC1, 12]);
    assert_eq!(encode_midi_event(&e(1, MidiMessage::ChannelAftertouch { vel: 33 }), 99), vec![0xD1, 33]);
    assert_eq!(encode_midi_event(&e(1, MidiMessage::PitchBend { bend: 0x2000 }), 99), vec![0xE1, 0x00, 0x40]);
    assert_eq!(encode_midi_event(&e(1, MidiMessage::PitchBend { bend: 0x3FFF }), 99), vec![0xE1, 0x7F, 0x7F]);
}

#[test]
fn all_sound_off_on_every_channel() {
    let msgs = all_sound_off();
    assert_eq!(msgs.len(), 16);
    for (c, m) in msgs.iter().enumerate() {
        assert_eq!(m, &vec![0xB0 + c as u8, 120, 0]);
    }
}

#[test]
fn stretch_rounds_down() {
    assert_eq!(stretch(1_000_000, StretchFactor { live: 1, score: 2 }), 500_000);
    assert_eq!(stretch(10, StretchFactor { live: 1, score: 3 }), 3);
    assert_eq!(stretch(u64::MAX, StretchFactor { live: 2, score: 1 }), u64::MAX);
    assert_eq!(StretchFactor { live: 2, score: 3 }.inverse(), StretchFactor { live: 3, score: 2 });
}
