use selim::playback::IDLE_WAIT;
use selim::score::{MidiMessage, ScoreEvent, ScoreNote};
use selim::session::{Session, FIRST_WAIT};

fn session() -> Session {
    let expect = vec![
        ScoreNote { time: 1_000_000, pitch: 60, velocity: 100 },
        ScoreNote { time: 1_100_000, pitch: 62, velocity: 100 },
    ];
    let playback = vec![
        ScoreEvent { time: 1_000_000, channel: 0, message: MidiMessage::NoteOn { key: 57, vel: 80 } },
        ScoreEvent { time: 1_100_000, channel: 0, message: MidiMessage::NoteOn { key: 59, vel: 80 } },
    ];
    Session::new(expect, playback, 0).unwrap()
}

#[test]
fn session_needs_an_expected_score() {
    assert!(Session::new(vec![], vec![], 0).is_err());
}

#[test]
fn session_waits_before_any_match() {
    let mut s = session();
    s.on_timer();
    let step = s.step(5).unwrap();
    assert!(step.messages.is_empty());
    assert_eq!(step.wait, FIRST_WAIT);
    assert!(!step.quit);
}

#[test]
fn session_plays_along_and_shuts_down() {
    let mut s = session();
    s.on_live_note(ScoreNote { time: 10_000_000, pitch: 60, velocity: 90 }).unwrap();
    let step = s.step(10_000_000).unwrap();
    assert_eq!(step.messages, vec![vec![0x90, 57, 90]]);
    assert_eq!(step.wait, 100_000);
    s.on_timer();
    let step = s.step(10_100_000).unwrap();
    assert_eq!(step.messages, vec![vec![0x90, 59, 90]]);
    assert_eq!(step.wait, IDLE_WAIT);
    s.on_shutdown();
    let step = s.step(10_200_000).unwrap();
    assert_eq!(step.messages.len(), 16);
    assert_eq!(step.messages[15], vec![0xBF, 120, 0]);
    assert!(step.quit);
}

#[test]
fn session_rejects_notes_out_of_order() {
    let mut s = session();
    s.on_live_note(ScoreNote { time: 10_000_000, pitch: 60, velocity: 90 }).unwrap();
    assert!(s.on_live_note(ScoreNote { time: 9_000_000, pitch: 62, velocity: 90 }).is_err());
    assert!(s.on_live_note(ScoreNote { time: 11_000_000, pitch: 200, velocity: 90 }).is_err());
    assert_eq!(s.follower.live().len(), 1);
    // A step before the last match's live time is a clock regression.
    assert!(s.step(9_000_000).is_err());
}
