use vstd::prelude::*;

pub mod score;
pub mod algo01_homophonopedantic;
pub mod algo02_polyphonoflex;
pub mod playback;
pub mod text;
pub mod device;
pub mod cmdline;
pub mod abc;
pub mod clock;
pub mod cleanup;
pub mod session;
pub mod channels;

use crate::algo01_homophonopedantic::MatchPerScore;
use crate::score::ScoreNote;

verus! {

/// The ratio between elapsed live time and elapsed score time, `live / score`.
///
/// A factor below one means the performer plays faster than notated.
#[derive(Clone, Copy, Debug, PartialEq, Eq, Structural)]
pub struct StretchFactor {
    pub live: u64,
    pub score: u64,
}

impl StretchFactor {
    /// Both terms are positive, so the factor is finite and positive.
    pub open spec fn wf(self) -> bool {
        self.live > 0 && self.score > 0
    }

    /// The factor `1.0`, used for the first match.
    pub open spec fn spec_unit() -> StretchFactor {
        StretchFactor { live: 1, score: 1 }
    }

    pub fn unit() -> (r: StretchFactor)
        ensures
            r == StretchFactor::spec_unit(),
    {
        StretchFactor { live: 1, score: 1 }
    }

    /// The reciprocal factor `score / live`.
    pub fn inverse(self) -> (r: StretchFactor)
        ensures
            r == (StretchFactor { live: self.score, score: self.live }),
    {
        StretchFactor { live: self.score, score: self.live }
    }
}

/// `duration * factor`, rounded down and capped at `u64::MAX`.
pub open spec fn spec_stretch(duration: u64, factor: StretchFactor) -> u64 {
    let q = (duration as int * factor.live as int) / factor.score as int;
    if q > u64::MAX as int {
        u64::MAX
    } else {
        q as u64
    }
}

/// Scales a duration (in microseconds) by a stretch factor.
pub fn stretch(duration: u64, stretch_factor: StretchFactor) -> (r: u64)
    requires
        stretch_factor.score > 0,
    ensures
        r == spec_stretch(duration, stretch_factor),
{
    let d = duration as u128;
    let l = stretch_factor.live as u128;
    assert(d * l <= u64::MAX as int * u64::MAX as int) by (nonlinear_arith)
        requires
            d <= u64::MAX,
            l <= u64::MAX,
    ;
    let q = (d * l) / (stretch_factor.score as u128);
    if q > u64::MAX as u128 {
        u64::MAX
    } else {
        q as u64
    }
}

/// The stretch factor between two elapsed times, `elapsed_live / elapsed_score`.
fn get_stretch_factor(elapsed_score: u64, elapsed_live: u64) -> (r: StretchFactor)
    requires
        elapsed_score > 0,
        elapsed_live > 0,
    ensures
        r == (StretchFactor { live: elapsed_live, score: elapsed_score }),
        r.wf(),
{
    StretchFactor { live: elapsed_live, score: elapsed_score }
}

/// The tempo estimate at a new match, given the previous match's factor and the score and
/// live times of the previous and the new match.
///
/// Where either elapsed time is not positive (notes of a chord, or a match that goes back in
/// the score) the previous factor is carried over.
pub open spec fn spec_next_stretch_factor(
    prior: StretchFactor,
    prev_score_time: u64,
    prev_live_time: u64,
    score_time: u64,
    live_time: u64,
) -> StretchFactor {
    if prev_score_time < score_time && prev_live_time < live_time {
        StretchFactor {
            live: (live_time - prev_live_time) as u64,
            score: (score_time - prev_score_time) as u64,
        }
    } else {
        prior
    }
}

/// Computes [`spec_next_stretch_factor`].
pub fn next_stretch_factor(
    prior: StretchFactor,
    prev_score_time: u64,
    prev_live_time: u64,
    score_time: u64,
    live_time: u64,
) -> (r: StretchFactor)
    ensures
        r == spec_next_stretch_factor(prior, prev_score_time, prev_live_time, score_time, live_time),
        prior.wf() ==> r.wf(),
{
    if prev_score_time < score_time && prev_live_time < live_time {
        get_stretch_factor(score_time - prev_score_time, live_time - prev_live_time)
    } else {
        prior
    }
}

/// A performer who plays two matched notes at a steady tempo `num / den` (live time elapsed
/// times `den` equals score time elapsed times `num`) gets that tempo as the stretch factor.
pub proof fn law_steady_tempo_gives_its_factor(
    prior: StretchFactor,
    prev_score_time: u64,
    prev_live_time: u64,
    score_time: u64,
    live_time: u64,
    num: nat,
    den: nat,
)
    requires
        prev_score_time < score_time,
        prev_live_time < live_time,
        (live_time - prev_live_time) * den == (score_time - prev_score_time) * num,
    ensures
        spec_next_stretch_factor(prior, prev_score_time, prev_live_time, score_time, live_time).live
            * den == spec_next_stretch_factor(
            prior,
            prev_score_time,
            prev_live_time,
            score_time,
            live_time,
        ).score * num,
{
}

/// The index of the first note of `score`, from `from` on, whose pitch is `pitch`.
pub open spec fn spec_find_next(score: Seq<ScoreNote>, from: int, pitch: u8) -> Option<int>
    decreases score.len() - from,
{
    if from < 0 || from >= score.len() {
        None
    } else if score[from].pitch == pitch {
        Some(from)
    } else {
        spec_find_next(score, from + 1, pitch)
    }
}

/// What [`spec_find_next`] finds lies at or after `from` and has the pitch looked for.
pub proof fn lemma_find_next(score: Seq<ScoreNote>, from: int, pitch: u8)
    ensures
        spec_find_next(score, from, pitch) is Some ==> {
            let s = spec_find_next(score, from, pitch)->0;
            from <= s < score.len() && score[s].pitch == pitch
        },
    decreases score.len() - from,
{
    if 0 <= from < score.len() && score[from].pitch != pitch {
        lemma_find_next(score, from + 1, pitch);
    }
}

/// Finds the next note with given `pitch`, starting from `score[index]`.
fn find_next_match_starting_at(score: &Vec<ScoreNote>, index: usize, pitch: u8) -> (r: Option<
    usize,
>)
    ensures
        match spec_find_next(score@, index as int, pitch) {
            Some(s) => r == Some(s as usize),
            None => r is None,
        },
{
    let mut i = index;
    while i < score.len()
        invariant
            index <= i,
            spec_find_next(score@, index as int, pitch) == spec_find_next(score@, i as int, pitch),
        decreases score.len() - i,
    {
        if score[i].pitch == pitch {
            return Some(i);
        }
        i = i + 1;
    }
    None
}

/// A pairing between a note of the live performance and a note of the expected score.
pub trait Match {
    spec fn spec_live_index(&self) -> usize;

    spec fn spec_live_velocity(&self) -> u8;

    spec fn spec_stretch_factor(&self) -> StretchFactor;

    /// The matched live note, or an error where the match points beyond `live`.
    fn live_note(&self, live: &Vec<ScoreNote>) -> (r: Result<ScoreNote, &'static str>)
        ensures
            self.spec_live_index() < live@.len() ==> r == Ok::<ScoreNote, &'static str>(
                live@[self.spec_live_index() as int],
            ),
            self.spec_live_index() >= live@.len() ==> r is Err,
    ;

    /// The time of the matched live note.
    fn live_time(&self, live: &Vec<ScoreNote>) -> (r: Result<u64, &'static str>)
        ensures
            self.spec_live_index() < live@.len() ==> r == Ok::<u64, &'static str>(
                live@[self.spec_live_index() as int].time,
            ),
            self.spec_live_index() >= live@.len() ==> r is Err,
    ;

    /// The velocity of the matched live note.
    fn live_velocity(&self) -> (r: u8)
        ensures
            r == self.spec_live_velocity(),
    ;

    /// The tempo estimate at this match.
    fn stretch_factor(&self) -> (r: StretchFactor)
        ensures
            r == self.spec_stretch_factor(),
    ;
}

/// What both matchers offer: an append-only consumer of live notes that produces
/// append-only matches and ignored notes.
pub trait ScoreFollower {
    /// The follower's internal invariant.
    spec fn follower_wf(&self) -> bool;

    /// The live performance so far.
    spec fn live_notes(&self) -> Seq<ScoreNote>;

    /// How many live notes were matched or ignored so far.
    spec fn handled(&self) -> nat;

    /// Every live note recorded as matched or ignored lies before `n`.
    spec fn handled_below(&self, n: int) -> bool;

    /// Appends a note to the live performance.
    fn push_live(&mut self, note: ScoreNote)
        requires
            old(self).follower_wf(),
            note.wf(),
            old(self).live_notes().len() > 0 ==> old(self).live_notes().last().time <= note.time,
        ensures
            final(self).follower_wf(),
            final(self).live_notes() == old(self).live_notes().push(note),
            final(self).handled() == old(self).handled(),
            forall|n: int| old(self).handled_below(n) ==> #[trigger] final(self).handled_below(n),
    ;

    /// Matches the live notes from `new_live_index` on with the score, in order.
    fn follow_score(&mut self, new_live_index: usize) -> (r: Result<(), &'static str>)
        requires
            old(self).follower_wf(),
            new_live_index <= old(self).live_notes().len(),
            old(self).handled_below(new_live_index as int),
        ensures
            r is Ok,
            final(self).follower_wf(),
            final(self).live_notes() == old(self).live_notes(),
            final(self).handled_below(final(self).live_notes().len() as int),
            final(self).handled() == old(self).handled() + (old(self).live_notes().len()
                - new_live_index),
    ;

    /// The matches from `start` up to, not including, `end`, pointing into the score.
    fn matches_slice(&self, start: usize, end: usize) -> Vec<MatchPerScore>
        requires
            self.follower_wf(),
    ;
}

} // verus!
