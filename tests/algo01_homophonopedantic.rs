use selim::algo01_homophonopedantic::{HomophonoPedantic, MatchPerScore};
use selim::score::ScoreNote;
use selim::StretchFactor;

fn notes(list: &[(u64, u8)]) -> Vec<ScoreNote> {
    list.iter()
        .map(|&(ms, pitch)| ScoreNote { time: ms * 1000, pitch, velocity: 100 })
        .collect()
}

fn test_score() -> Vec<ScoreNote> {
    notes(&[(1000, 60), (1100, 62), (1200, 64)])
}

fn factor(k: StretchFactor) -> f64 {
    k.live as f64 / k.score as f64
}

fn first_match() -> MatchPerScore {
    MatchPerScore::new(0, 0, StretchFactor::unit(), 100, 100)
}

#[test]
fn match_the_only_note() {
    let mut follower = HomophonoPedantic::new(notes(&[(1000, 60)]));
    follower.live.extend(notes(&[(5, 60)]));
    follower.follow_score(0).unwrap();
    assert_eq!(follower.matches, vec![first_match()]);
    assert!(follower.ignored.is_empty());
}

#[test]
fn algo01_homophonopedantic_match_first() {
    let mut follower = HomophonoPedantic::new(test_score());
    follower.live.extend(notes(&[(5, 60)]));
    follower.follow_score(0).unwrap();
    assert_eq!(follower.matches, vec![first_match()]);
    assert_eq!(factor(follower.matches[0].stretch_factor), 1.0);
    assert!(follower.ignored.is_empty());
}

#[test]
fn algo01_homophonopedantic_match_second() {
    let mut follower = HomophonoPedantic::new(test_score());
    follower.live.extend(notes(&[(5, 60), (55, 62)]));
    follower.matches.push(first_match());
    follower.follow_score(1).unwrap();
    assert_eq!(
        follower.matches[1..],
        [MatchPerScore::new(1, 1, StretchFactor { live: 50_000, score: 100_000 }, 100, 100)]
    );
    assert_eq!(factor(follower.matches[1].stretch_factor), 0.5);
    assert!(follower.ignored.is_empty());
}

#[test]
fn algo01_homophonopedantic_skip_extra_note() {
    let mut follower = HomophonoPedantic::new(test_score());
    follower.live.extend(notes(&[(5, 60), (25, 61), (55, 62)]));
    follower.matches.push(first_match());
    follower.follow_score(1).unwrap();
    assert_eq!(
        follower.matches[1..],
        [MatchPerScore::new(1, 2, StretchFactor { live: 50_000, score: 100_000 }, 100, 100)]
    );
    assert_eq!(factor(follower.matches[1].stretch_factor), 0.5);
    assert_eq!(follower.ignored, vec![1]);
}

#[test]
fn algo01_homophonopedantic_skip_missing_note() {
    let mut follower = HomophonoPedantic::new(test_score());
    follower.live.extend(notes(&[(5, 60), (55, 64)]));
    follower.matches.push(first_match());
    follower.follow_score(1).unwrap();
    assert_eq!(
        follower.matches[1..],
        [MatchPerScore::new(2, 1, StretchFactor { live: 50_000, score: 200_000 }, 100, 100)]
    );
    assert_eq!(factor(follower.matches[1].stretch_factor), 0.25);
    assert!(follower.ignored.is_empty());
}

#[test]
fn algo01_homophonopedantic_only_wrong_notes() {
    let mut follower = HomophonoPedantic::new(test_score());
    follower.live.extend(notes(&[(5, 60), (55, 63), (105, 66)]));
    follower.matches.push(first_match());
    follower.follow_score(1).unwrap();
    assert!(follower.matches[1..].is_empty());
    assert_eq!(follower.ignored, vec![1, 2]);
}

#[test]
fn strict_whole_run_accounts_for_every_note() {
    let mut follower = HomophonoPedantic::new(test_score());
    follower.live.extend(notes(&[(5, 60), (25, 61), (55, 62), (70, 63), (105, 64)]));
    follower.follow_score(0).unwrap();
    assert_eq!(follower.matches.len() + follower.ignored.len(), follower.live.len());
    let score = test_score();
    for w in follower.matches.windows(2) {
        assert!(w[0].score_index < w[1].score_index);
        assert!(w[0].live_index < w[1].live_index);
    }
    for m in &follower.matches {
        assert_eq!(score[m.score_index].pitch, follower.live[m.live_index].pitch);
        assert!(m.stretch_factor.live > 0 && m.stretch_factor.score > 0);
    }
    assert_eq!(follower.ignored, vec![1, 3]);
}

#[test]
fn strict_batches_give_the_same_matches_as_one_by_one() {
    let live = notes(&[(5, 60), (25, 61), (55, 62), (105, 64)]);
    let mut batch = HomophonoPedantic::new(test_score());
    batch.live.extend(live.clone());
    batch.follow_score(0).unwrap();
    let mut single = HomophonoPedantic::new(test_score());
    for (i, note) in live.into_iter().enumerate() {
        single.push_live(note);
        single.follow_score(i).unwrap();
    }
    assert_eq!(batch.matches, single.matches);
    assert_eq!(batch.ignored, single.ignored);
    assert_eq!(batch.matches[2].stretch_factor, StretchFactor { live: 50_000, score: 100_000 });
}

#[test]
fn strict_chord_carries_previous_factor() {
    let score = notes(&[(1000, 60), (1000, 64), (1200, 67)]);
    let mut follower = HomophonoPedantic::new(score);
    follower.live.extend(notes(&[(5, 60), (15, 64), (105, 67)]));
    follower.follow_score(0).unwrap();
    assert_eq!(follower.matches[1].stretch_factor, StretchFactor::unit());
    assert_eq!(follower.matches[2].stretch_factor, StretchFactor { live: 90_000, score: 200_000 });
}

#[test]
fn strict_matches_slice_and_score_note() {
    let mut follower = HomophonoPedantic::new(test_score());
    follower.live.extend(notes(&[(5, 60), (55, 62)]));
    follower.follow_score(0).unwrap();
    assert_eq!(follower.matches_slice(1, 10), follower.matches[1..].to_vec());
    assert!(follower.matches_slice(2, 1).is_empty());
    let m = follower.last_match().unwrap();
    assert_eq!(follower.match_score_note(m).unwrap(), test_score()[1]);
    assert!(follower
        .match_score_note(MatchPerScore::new(7, 0, StretchFactor::unit(), 0, 0))
        .is_err());
}
