use selim::algo01_homophonopedantic::MatchPerScore;
use selim::algo02_polyphonoflex::{absolute_time_difference, MatchPerPitch, PolyphonoFlex};
use selim::score::ScoreNote;
use selim::StretchFactor;

fn notes(list: &[(u64, u8)]) -> Vec<ScoreNote> {
    list.iter()
        .map(|&(ms, pitch)| ScoreNote { time: ms * 1000, pitch, velocity: 100 })
        .collect()
}

fn test_score() -> Vec<ScoreNote> {
    notes(&[(1000, 60), (1100, 62), (1200, 64)])
}

fn per_pitch(offset: usize, live_index: usize, k: StretchFactor) -> MatchPerPitch {
    MatchPerPitch {
        score_per_pitch_index: offset,
        live_index,
        stretch_factor: k,
        score_velocity: 100,
        live_velocity: 100,
    }
}

/// A follower that has already matched the live note (5 ms, pitch 60) with the first note.
fn follower_after_first(score: Vec<ScoreNote>) -> PolyphonoFlex {
    let mut follower = PolyphonoFlex::new(score);
    follower.push_live(notes(&[(5, 60)])[0]);
    follower.follow_score(0).unwrap();
    follower
}

fn push_all(follower: &mut PolyphonoFlex, live: &[(u64, u8)]) {
    for note in notes(live) {
        follower.push_live(note);
    }
}

#[test]
fn find_new_matches_the_only_note() {
    let follower = follower_after_first(notes(&[(1000, 60)]));
    assert_eq!(follower.matches().clone(), vec![per_pitch(0, 0, StretchFactor::unit())]);
    assert!(follower.ignored().is_empty());
}

#[test]
fn follow_score_the_only_note() {
    let follower = follower_after_first(notes(&[(1000, 60)]));
    assert_eq!(follower.matches().clone(), vec![per_pitch(0, 0, StretchFactor::unit())]);
    assert_eq!(
        follower.last_match(),
        Some(MatchPerScore::new(0, 0, StretchFactor::unit(), 100, 100))
    );
    assert_eq!(follower.match_offsets_for_pitch(60).clone(), vec![0]);
    assert!(follower.ignored().is_empty());
}

#[test]
fn algo02_polyphonoflex_match_first() {
    let follower = follower_after_first(test_score());
    assert_eq!(follower.matches().clone(), vec![per_pitch(0, 0, StretchFactor::unit())]);
    assert_eq!(follower.match_offsets_for_pitch(60).clone(), vec![0]);
    assert!(follower.ignored().is_empty());
}

#[test]
fn algo02_polyphonoflex_match_second() {
    let mut follower = follower_after_first(test_score());
    push_all(&mut follower, &[(55, 62)]);
    follower.follow_score(1).unwrap();
    assert_eq!(
        follower.matches()[1..],
        [per_pitch(0, 1, StretchFactor { live: 50_000, score: 100_000 })]
    );
    assert_eq!(follower.last_match().unwrap().score_index, 1);
    assert_eq!(follower.match_offsets_for_pitch(62).clone(), vec![1]);
    assert!(follower.ignored().is_empty());
}

#[test]
fn algo02_polyphonoflex_skip_extra_note() {
    let mut follower = follower_after_first(test_score());
    push_all(&mut follower, &[(25, 61), (55, 62)]);
    follower.follow_score(1).unwrap();
    assert_eq!(
        follower.matches()[1..],
        [per_pitch(0, 2, StretchFactor { live: 50_000, score: 100_000 })]
    );
    assert!(follower.match_offsets_for_pitch(61).is_empty());
    assert_eq!(follower.match_offsets_for_pitch(62).clone(), vec![1]);
    assert_eq!(follower.ignored().clone(), vec![1]);
}

#[test]
fn algo02_polyphonoflex_skip_missing_note() {
    let mut follower = follower_after_first(test_score());
    push_all(&mut follower, &[(55, 64)]);
    follower.follow_score(1).unwrap();
    assert_eq!(
        follower.matches()[1..],
        [per_pitch(0, 1, StretchFactor { live: 50_000, score: 200_000 })]
    );
    assert_eq!(follower.last_match().unwrap().score_index, 2);
    assert_eq!(follower.match_offsets_for_pitch(64).clone(), vec![1]);
    assert!(follower.ignored().is_empty());
}

#[test]
fn algo02_polyphonoflex_only_wrong_notes() {
    let mut follower = follower_after_first(test_score());
    push_all(&mut follower, &[(55, 63), (105, 66)]);
    follower.follow_score(1).unwrap();
    assert!(follower.matches()[1..].is_empty());
    assert!(follower.match_offsets_for_pitch(63).is_empty());
    assert!(follower.match_offsets_for_pitch(66).is_empty());
    assert_eq!(follower.ignored().clone(), vec![1, 2]);
}

#[test]
fn flex_matches_chord_in_any_order() {
    let score = notes(&[(1000, 60), (1000, 64), (1000, 67), (1500, 72)]);
    let mut follower = PolyphonoFlex::new(score.clone());
    push_all(&mut follower, &[(5, 67), (6, 60), (7, 64), (255, 72)]);
    follower.follow_score(0).unwrap();
    assert!(follower.ignored().is_empty());
    let slice = follower.matches_slice(0, 100);
    let indices: Vec<usize> = slice.iter().map(|m| m.score_index).collect();
    assert_eq!(indices, vec![2, 0, 1, 3]);
    for m in &slice {
        assert_eq!(score[m.score_index].pitch, follower.live()[m.live_index].pitch);
        assert!(m.stretch_factor.live > 0 && m.stretch_factor.score > 0);
    }
    assert_eq!(follower.matches().len() + follower.ignored().len(), follower.live().len());
}

#[test]
fn flex_prefers_nearest_repeated_pitch() {
    let score = notes(&[(0, 60), (100, 62), (200, 60), (300, 60)]);
    let mut follower = PolyphonoFlex::new(score);
    push_all(&mut follower, &[(1000, 60), (1300, 60)]);
    follower.follow_score(0).unwrap();
    // 300 ms after the first match, the occurrence at 300 ms is nearest.
    assert_eq!(follower.matches()[1].score_per_pitch_index, 2);
    assert_eq!(follower.last_match().unwrap().score_index, 3);
}

#[test]
fn flex_match_score_note_checks_bounds() {
    let follower = follower_after_first(test_score());
    let m = follower.matches()[0];
    assert_eq!(follower.match_score_note(m).unwrap(), test_score()[0]);
    assert!(follower.match_score_note(per_pitch(5, 0, StretchFactor::unit())).is_err());
    assert!(follower.match_score_note(per_pitch(0, 9, StretchFactor::unit())).is_err());
}

#[test]
fn absolute_time_difference_is_symmetric() {
    assert_eq!(absolute_time_difference(5, 12), 7);
    assert_eq!(absolute_time_difference(12, 5), 7);
    assert_eq!(absolute_time_difference(4, 4), 0);
}

#[test]
fn flex_first_note_matches_first_occurrence_however_late() {
    // The only note of pitch 60 lies 10 000 s into the score.
    let score = vec![ScoreNote { time: 10_000_000_000, pitch: 60, velocity: 100 }];
    let mut follower = PolyphonoFlex::new(score);
    push_all(&mut follower, &[(5, 60)]);
    follower.follow_score(0).unwrap();
    assert_eq!(follower.matches().clone(), vec![per_pitch(0, 0, StretchFactor::unit())]);
    assert!(follower.ignored().is_empty());
}

#[test]
fn flex_far_candidate_is_still_matched() {
    let score = vec![
        ScoreNote { time: 0, pitch: 60, velocity: 100 },
        ScoreNote { time: 20_000_000_000, pitch: 62, velocity: 100 },
    ];
    let mut follower = PolyphonoFlex::new(score);
    push_all(&mut follower, &[(5, 60), (10, 62)]);
    follower.follow_score(0).unwrap();
    assert_eq!(follower.matches().len(), 2);
    assert_eq!(follower.last_match().unwrap().score_index, 1);
    assert!(follower.ignored().is_empty());
}
