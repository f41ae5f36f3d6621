use selim::score::{
    convert_midi_note_ons, live_note_on, make_tracks_and_channels_index, pitch_to_name,
    simplify_score, smf_to_events, Channels, MidiMessage, ScoreEvent, ScoreNote, TrackEvent,
};

#[test]
fn pitch_names() {
    let cases: [(u8, &str); 128] = [
        (0, "C-3"),
        (1, "C#-3"),
        (2, "D-3"),
        (3, "Eb-3"),
        (4, "E-3"),
        (5, "F-3"),
        (6, "F#-3"),
        (7, "G-3"),
        (8, "Ab-3"),
        (9, "A-3"),
        (10, "B-3"),
        (11, "H-3"),
        (12, "C-2"),
        (13, "C#-2"),
        (14, "D-2"),
        (15, "Eb-2"),
        (16, "E-2"),
        (17, "F-2"),
        (18, "F#-2"),
        (19, "G-2"),
        (20, "Ab-2"),
        (21, "A-2"),
        (22, "B-2"),
        (23, "H-2"),
        (24, "C-1"),
        (25, "C#-1"),
        (26, "D-1"),
        (27, "Eb-1"),
        (28, "E-1"),
        (29, "F-1"),
        (30, "F#-1"),
        (31, "G-1"),
        (32, "Ab-1"),
        (33, "A-1"),
        (34, "B-1"),
        (35, "H-1"),
        (36, "C"),
        (37, "C#"),
        (38, "D"),
        (39, "Eb"),
        (40, "E"),
        (41, "F"),
        (42, "F#"),
        (43, "G"),
        (44, "Ab"),
        (45, "A"),
        (46, "B"),
        (47, "H"),
        (48, "c"),
        (49, "c#"),
        (50, "d"),
        (51, "eb"),
        (52, "e"),
        (53, "f"),
        (54, "f#"),
        (55, "g"),
        (56, "ab"),
        (57, "a"),
        (58, "b"),
        (59, "h"),
        (60, "C1"),
        (61, "C#1"),
        (62, "D1"),
        (63, "Eb1"),
        (64, "E1"),
        (65, "F1"),
        (66, "F#1"),
        (67, "G1"),
        (68, "Ab1"),
        (69, "A1"),
        (70, "B1"),
        (71, "H1"),
        (72, "C2"),
        (73, "C#2"),
        (74, "D2"),
        (75, "Eb2"),
        (76, "E2"),
        (77, "F2"),
        (78, "F#2"),
        (79, "G2"),
        (80, "Ab2"),
        (81, "A2"),
        (82, "B2"),
        (83, "H2"),
        (84, "C3"),
        (85, "C#3"),
        (86, "D3"),
        (87, "Eb3"),
        (88, "E3"),
        (89, "F3"),
        (90, "F#3"),
        (91, "G3"),
        (92, "Ab3"),
        (93, "A3"),
        (94, "B3"),
        (95, "H3"),
        (96, "C4"),
        (97, "C#4"),
        (98, "D4"),
        (99, "Eb4"),
        (100, "E4"),
        (101, "F4"),
        (102, "F#4"),
        (103, "G4"),
        (104, "Ab4"),
        (105, "A4"),
        (106, "B4"),
        (107, "H4"),
        (108, "C5"),
        (109, "C#5"),
        (110, "D5"),
        (111, "Eb5"),
        (112, "E5"),
        (113, "F5"),
        (114, "F#5"),
        (115, "G5"),
        (116, "Ab5"),
        (117, "A5"),
        (118, "B5"),
        (119, "H5"),
        (120, "C6"),
        (121, "C#6"),
        (122, "D6"),
        (123, "Eb6"),
        (124, "E6"),
        (125, "F6"),
        (126, "F#6"),
        (127, "G6"),
    ];
    for (pitch, name) in cases {
        assert_eq!(pitch_to_name(pitch), name);
    }
}

#[test]
fn live_note_on_parses_note_ons_only() {
    assert_eq!(
        live_note_on(7, &[0x93, 60, 100]),
        Some(ScoreNote { time: 7, pitch: 60, velocity: 100 })
    );
    assert_eq!(live_note_on(7, &[0x83, 60, 100]), None);
    assert_eq!(live_note_on(7, &[0x93, 60]), None);
    assert_eq!(live_note_on(7, &[0x93, 60, 200]), None);
    assert_eq!(live_note_on(7, &[]), None);
}

#[test]
fn note_ons_with_velocity_become_notes() {
    let events = vec![
        ScoreEvent { time: 1, channel: 0, message: MidiMessage::NoteOn { key: 60, vel: 10 } },
        ScoreEvent { time: 2, channel: 0, message: MidiMessage::NoteOn { key: 60, vel: 0 } },
        ScoreEvent { time: 3, channel: 0, message: MidiMessage::NoteOff { key: 62, vel: 10 } },
        ScoreEvent { time: 4, channel: 1, message: MidiMessage::NoteOn { key: 64, vel: 90 } },
    ];
    assert_eq!(
        convert_midi_note_ons(events),
        vec![
            ScoreNote { time: 1, pitch: 60, velocity: 10 },
            ScoreNote { time: 4, pitch: 64, velocity: 90 },
        ]
    );
}

#[test]
fn simplified_scores_round_to_milliseconds() {
    let score = vec![
        ScoreNote { time: 1_999, pitch: 60, velocity: 3 },
        ScoreNote { time: 251_400, pitch: 62, velocity: 0 },
    ];
    assert_eq!(
        simplify_score(score),
        vec![
            ScoreNote { time: 1_000, pitch: 60, velocity: 100 },
            ScoreNote { time: 251_000, pitch: 62, velocity: 0 },
        ]
    );
}

#[test]
fn track_channel_index() {
    let all: Vec<u8> = (0..16).collect();
    assert_eq!(make_tracks_and_channels_index(&vec![], 2).unwrap(), vec![all.clone(), all]);
    let selection = vec![
        Channels { track: 1, midi_channels: vec![0] },
        Channels { track: 2, midi_channels: vec![3, 4] },
        Channels { track: 1, midi_channels: vec![5] },
    ];
    assert_eq!(
        make_tracks_and_channels_index(&selection, 3).unwrap(),
        vec![vec![], vec![5], vec![3, 4]]
    );
    assert!(make_tracks_and_channels_index(&selection, 2).is_err());
}

#[test]
fn events_on_selected_channels() {
    let ev = |track: usize, time: u64, channel: u8| TrackEvent {
        track,
        event: ScoreEvent { time, channel, message: MidiMessage::NoteOn { key: 60, vel: 1 } },
    };
    let events = vec![ev(0, 0, 0), ev(1, 1, 0), ev(1, 2, 1), ev(0, 3, 1)];
    let picked = smf_to_events(&events, &vec![Channels { track: 1, midi_channels: vec![1] }], 2)
        .unwrap();
    assert_eq!(picked, vec![events[2].event]);
    assert_eq!(smf_to_events(&events, &vec![], 2).unwrap().len(), 4);
    assert!(smf_to_events(&events, &vec![Channels { track: 2, midi_channels: vec![1] }], 2).is_err());
}
