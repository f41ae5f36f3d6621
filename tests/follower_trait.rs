use selim::algo01_homophonopedantic::HomophonoPedantic;
use selim::algo02_polyphonoflex::PolyphonoFlex;
use selim::score::ScoreNote;
use selim::ScoreFollower;

fn notes(list: &[(u64, u8)]) -> Vec<ScoreNote> {
    list.iter()
        .map(|&(ms, pitch)| ScoreNote { time: ms * 1000, pitch, velocity: 100 })
        .collect()
}

/// Feeds the live notes one by one and returns the matched score indices.
fn follow_one_by_one<F: ScoreFollower>(follower: &mut F, live: &[(u64, u8)]) -> Vec<usize> {
    for (i, note) in notes(live).into_iter().enumerate() {
        ScoreFollower::push_live(follower, note);
        ScoreFollower::follow_score(follower, i).unwrap();
    }
    ScoreFollower::matches_slice(follower, 0, usize::MAX)
        .iter()
        .map(|m| m.score_index)
        .collect()
}

#[test]
fn both_followers_agree_on_a_monophonic_line() {
    let score = notes(&[(1000, 60), (1100, 62), (1200, 64), (1300, 65)]);
    let live = [(5, 60), (55, 62), (80, 61), (105, 64), (155, 65)];
    let mut strict = HomophonoPedantic::new(score.clone());
    let mut flex = PolyphonoFlex::new(score);
    assert_eq!(follow_one_by_one(&mut strict, &live), vec![0, 1, 2, 3]);
    assert_eq!(follow_one_by_one(&mut flex, &live), vec![0, 1, 2, 3]);
    assert_eq!(strict.ignored, vec![2]);
    assert_eq!(flex.ignored().clone(), vec![2]);
}

#[test]
fn strict_follower_serializes_a_chord() {
    let score = notes(&[(1000, 60), (1000, 64)]);
    let mut strict = HomophonoPedantic::new(score.clone());
    let mut flex = PolyphonoFlex::new(score);
    // Chord members played out of score order.
    let live = [(5, 64), (6, 60)];
    assert_eq!(follow_one_by_one(&mut strict, &live), vec![1]);
    assert_eq!(strict.ignored, vec![1]);
    assert_eq!(follow_one_by_one(&mut flex, &live), vec![1, 0]);
}
