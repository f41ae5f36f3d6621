use vstd::prelude::*;

use crate::score::{notes_wf, sorted_by_time, ScoreNote};
use crate::{
    find_next_match_starting_at, lemma_find_next, next_stretch_factor, spec_find_next,
    spec_next_stretch_factor, Match, ScoreFollower, StretchFactor,
};

verus! {

/// A match that points directly into the expected score.
#[derive(Clone, Copy, Debug, PartialEq, Eq, Structural)]
pub struct MatchPerScore {
    pub score_index: usize,
    pub live_index: usize,
    pub stretch_factor: StretchFactor,
    pub score_velocity: u8,
    pub live_velocity: u8,
}

impl MatchPerScore {
    pub fn new(
        score_index: usize,
        live_index: usize,
        stretch_factor: StretchFactor,
        score_velocity: u8,
        live_velocity: u8,
    ) -> (r: MatchPerScore)
        ensures
            r == (MatchPerScore {
                score_index,
                live_index,
                stretch_factor,
                score_velocity,
                live_velocity,
            }),
    {
        MatchPerScore { score_index, live_index, stretch_factor, score_velocity, live_velocity }
    }

    pub fn score_index(&self) -> (r: usize)
        ensures
            r == self.score_index,
    {
        self.score_index
    }

    /// The matched score note, or an error where the match points beyond `score`.
    pub fn score_note(&self, score: &Vec<ScoreNote>) -> (r: Result<ScoreNote, &'static str>)
        ensures
            self.score_index < score@.len() ==> r == Ok::<ScoreNote, &'static str>(
                score@[self.score_index as int],
            ),
            self.score_index >= score@.len() ==> r is Err,
    {
        if self.score_index < score.len() {
            Ok(score[self.score_index])
        } else {
            Err("Match points beyond list of score events")
        }
    }

    /// The time of the matched score note.
    pub fn score_time(&self, score: &Vec<ScoreNote>) -> (r: Result<u64, &'static str>)
        ensures
            self.score_index < score@.len() ==> r == Ok::<u64, &'static str>(
                score@[self.score_index as int].time,
            ),
            self.score_index >= score@.len() ==> r is Err,
    {
        let note = self.score_note(score)?;
        Ok(note.time)
    }

    pub fn live_index(&self) -> (r: usize)
        ensures
            r == self.live_index,
    {
        self.live_index
    }

    /// The pitch of the matched live note.
    pub fn live_pitch(&self, live: &Vec<ScoreNote>) -> (r: Result<u8, &'static str>)
        ensures
            self.live_index < live@.len() ==> r == Ok::<u8, &'static str>(
                live@[self.live_index as int].pitch,
            ),
            self.live_index >= live@.len() ==> r is Err,
    {
        let note = self.live_note(live)?;
        Ok(note.pitch)
    }

    pub fn score_velocity(&self) -> (r: u8)
        ensures
            r == self.score_velocity,
    {
        self.score_velocity
    }
}

impl Match for MatchPerScore {
    open spec fn spec_live_index(&self) -> usize {
        self.live_index
    }

    open spec fn spec_live_velocity(&self) -> u8 {
        self.live_velocity
    }

    open spec fn spec_stretch_factor(&self) -> StretchFactor {
        self.stretch_factor
    }

    fn live_note(&self, live: &Vec<ScoreNote>) -> (r: Result<ScoreNote, &'static str>) {
        if self.live_index < live.len() {
            Ok(live[self.live_index])
        } else {
            Err("Match points beyond list of live events")
        }
    }

    fn live_time(&self, live: &Vec<ScoreNote>) -> (r: Result<u64, &'static str>) {
        let note = self.live_note(live)?;
        Ok(note.time)
    }

    fn live_velocity(&self) -> (r: u8) {
        self.live_velocity
    }

    fn stretch_factor(&self) -> (r: StretchFactor) {
        self.stretch_factor
    }
}

/// Where the score cursor stands after `matches`: just after the last matched score note.
pub open spec fn spec_cursor(matches: Seq<MatchPerScore>) -> int {
    if matches.len() == 0 {
        0
    } else {
        matches.last().score_index + 1
    }
}

/// The stretch factor of a new match of score note `s` with a live note played at `live_time`.
pub open spec fn spec_factor_at(
    score: Seq<ScoreNote>,
    live: Seq<ScoreNote>,
    matches: Seq<MatchPerScore>,
    s: int,
    live_time: u64,
) -> StretchFactor {
    if matches.len() == 0 {
        StretchFactor::spec_unit()
    } else {
        let prev = matches.last();
        spec_next_stretch_factor(
            prev.stretch_factor,
            score[prev.score_index as int].time,
            live[prev.live_index as int].time,
            score[s].time,
            live_time,
        )
    }
}

/// The matcher's work on live note `i`: match it with the next score note of the same pitch
/// after the cursor, or ignore it when there is none.
pub open spec fn spec_step(
    score: Seq<ScoreNote>,
    live: Seq<ScoreNote>,
    matches: Seq<MatchPerScore>,
    ignored: Seq<usize>,
    i: int,
) -> (Seq<MatchPerScore>, Seq<usize>) {
    match spec_find_next(score, spec_cursor(matches), live[i].pitch) {
        Some(s) => (
            matches.push(
                MatchPerScore {
                    score_index: s as usize,
                    live_index: i as usize,
                    stretch_factor: spec_factor_at(score, live, matches, s, live[i].time),
                    score_velocity: score[s].velocity,
                    live_velocity: live[i].velocity,
                },
            ),
            ignored,
        ),
        None => (matches, ignored.push(i as usize)),
    }
}

/// Matches and ignored notes after the live notes `from .. to` were handled in order.
pub open spec fn spec_follow(
    score: Seq<ScoreNote>,
    live: Seq<ScoreNote>,
    matches: Seq<MatchPerScore>,
    ignored: Seq<usize>,
    from: int,
    to: int,
) -> (Seq<MatchPerScore>, Seq<usize>)
    decreases to - from,
{
    if to <= from {
        (matches, ignored)
    } else {
        let prev = spec_follow(score, live, matches, ignored, from, to - 1);
        spec_step(score, live, prev.0, prev.1, to - 1)
    }
}

/// Each match points into both scores, pairs notes of equal pitch, and carries a positive
/// stretch factor; matches grow strictly in both score and live index.
pub open spec fn matches_wf(
    score: Seq<ScoreNote>,
    live: Seq<ScoreNote>,
    matches: Seq<MatchPerScore>,
) -> bool {
    &&& forall|i: int|
        0 <= i < matches.len() ==> {
            let m = #[trigger] matches[i];
            &&& m.score_index < score.len()
            &&& m.live_index < live.len()
            &&& score[m.score_index as int].pitch == live[m.live_index as int].pitch
            &&& m.stretch_factor.wf()
        }
    &&& forall|i: int, j: int|
        0 <= i < j < matches.len() ==> (#[trigger] matches[i]).score_index < (
        #[trigger] matches[j]).score_index && matches[i].live_index < matches[j].live_index
}

/// Every live index recorded in `matches` or `ignored` is below `n`, and `ignored` grows.
pub open spec fn recorded_below(matches: Seq<MatchPerScore>, ignored: Seq<usize>, n: int) -> bool {
    &&& forall|i: int| 0 <= i < matches.len() ==> (#[trigger] matches[i]).live_index < n
    &&& forall|i: int| 0 <= i < ignored.len() ==> #[trigger] ignored[i] < n
    &&& forall|i: int, j: int|
        0 <= i < j < ignored.len() ==> (#[trigger] ignored[i]) < (#[trigger] ignored[j])
}

pub open spec fn spec_min(a: int, b: int) -> int {
    if a < b {
        a
    } else {
        b
    }
}

/// The elements of `s` from `start` up to, not including, `end`, with `end` cut at the length.
pub open spec fn spec_slice<T>(s: Seq<T>, start: int, end: int) -> Seq<T> {
    let stop = spec_min(end, s.len() as int);
    if 0 <= start < stop {
        s.subrange(start, stop)
    } else {
        Seq::empty()
    }
}

/// Strict pitch-sequence matcher: supports only monophony (order of events matters), ignores
/// unexpected notes and keeps waiting for the next expected one.
pub struct HomophonoPedantic {
    pub score: Vec<ScoreNote>,
    pub live: Vec<ScoreNote>,
    pub matches: Vec<MatchPerScore>,
    pub ignored: Vec<usize>,
}

impl HomophonoPedantic {
    /// Both scores hold well-formed notes in time order, and the matches are consistent.
    pub open spec fn wf(&self) -> bool {
        &&& notes_wf(self.score@)
        &&& sorted_by_time(self.score@)
        &&& notes_wf(self.live@)
        &&& sorted_by_time(self.live@)
        &&& matches_wf(self.score@, self.live@, self.matches@)
        &&& forall|i: int| 0 <= i < self.ignored@.len() ==> #[trigger] self.ignored@[i] < self.live@.len()
    }

    pub fn new(score: Vec<ScoreNote>) -> (r: HomophonoPedantic)
        ensures
            r.score@ == score@,
            r.live@.len() == 0,
            r.matches@.len() == 0,
            r.ignored@.len() == 0,
            notes_wf(score@) && sorted_by_time(score@) ==> r.wf(),
    {
        HomophonoPedantic { score, live: Vec::new(), matches: Vec::new(), ignored: Vec::new() }
    }

    /// Appends a note to the live performance.
    pub fn push_live(&mut self, note: ScoreNote)
        requires
            old(self).wf(),
            note.wf(),
            old(self).live@.len() > 0 ==> old(self).live@.last().time <= note.time,
        ensures
            final(self).wf(),
            final(self).live@ == old(self).live@.push(note),
            final(self).score@ == old(self).score@,
            final(self).matches@ == old(self).matches@,
            final(self).ignored@ == old(self).ignored@,
    {
        self.live.push(note);
    }

    /// The most recent match, if any.
    pub fn last_match(&self) -> (r: Option<MatchPerScore>)
        ensures
            self.matches@.len() == 0 ==> r is None,
            self.matches@.len() > 0 ==> r == Some(self.matches@.last()),
    {
        if self.matches.len() == 0 {
            None
        } else {
            Some(self.matches[self.matches.len() - 1])
        }
    }

    /// The score note that a match points to.
    pub fn match_score_note(&self, m: MatchPerScore) -> (r: Result<ScoreNote, &'static str>)
        ensures
            m.score_index < self.score@.len() ==> r == Ok::<ScoreNote, &'static str>(
                self.score@[m.score_index as int],
            ),
            m.score_index >= self.score@.len() ==> r is Err,
    {
        m.score_note(&self.score)
    }

    /// The matches from `start` up to, not including, `end`; `end` is cut at the number of
    /// matches.
    pub fn matches_slice(&self, start: usize, end: usize) -> (r: Vec<MatchPerScore>)
        ensures
            r@ == spec_slice(self.matches@, start as int, end as int),
    {
        let mut r: Vec<MatchPerScore> = Vec::new();
        let stop = if end < self.matches.len() {
            end
        } else {
            self.matches.len()
        };
        if start >= stop {
            return r;
        }
        let mut i = start;
        while i < stop
            invariant
                start <= i <= stop <= self.matches@.len(),
                stop as int == spec_min(end as int, self.matches@.len() as int),
                r@ == self.matches@.subrange(start as int, i as int),
            decreases stop - i,
        {
            r.push(self.matches[i]);
            i = i + 1;
        }
        r
    }

    /// Matches incoming notes, from `new_live_index` on, with next notes in the score.
    pub fn follow_score(&mut self, new_live_index: usize) -> (r: Result<(), &'static str>)
        requires
            old(self).wf(),
            new_live_index <= old(self).live@.len(),
            recorded_below(old(self).matches@, old(self).ignored@, new_live_index as int),
        ensures
            r is Ok,
            final(self).wf(),
            matches_wf(final(self).score@, final(self).live@, final(self).matches@),
            old(self).matches@.len() + old(self).ignored@.len() == new_live_index
                ==> final(self).matches@.len() + final(self).ignored@.len()
                == final(self).live@.len(),
            final(self).score@ == old(self).score@,
            final(self).live@ == old(self).live@,
            (final(self).matches@, final(self).ignored@) == spec_follow(
                old(self).score@,
                old(self).live@,
                old(self).matches@,
                old(self).ignored@,
                new_live_index as int,
                old(self).live@.len() as int,
            ),
            recorded_below(final(self).matches@, final(self).ignored@, final(self).live@.len() as int),
            final(self).matches@.len() + final(self).ignored@.len() - (old(self).matches@.len()
                + old(self).ignored@.len()) == old(self).live@.len() - new_live_index,
    {
        let (mut new_matches, mut ignored) = self.find_new_matches(new_live_index);
        self.matches.append(&mut new_matches);
        self.ignored.append(&mut ignored);
        Ok(())
    }

    /// Finds matches in the score for the live notes from `new_live_index` on, in order:
    /// the new matches and the newly ignored live indices.
    fn find_new_matches(&self, new_live_index: usize) -> (r: (Vec<MatchPerScore>, Vec<usize>))
        requires
            self.wf(),
            new_live_index <= self.live@.len(),
            recorded_below(self.matches@, self.ignored@, new_live_index as int),
        ensures
            (self.matches@ + r.0@, self.ignored@ + r.1@) == spec_follow(
                self.score@,
                self.live@,
                self.matches@,
                self.ignored@,
                new_live_index as int,
                self.live@.len() as int,
            ),
            matches_wf(self.score@, self.live@, self.matches@ + r.0@),
            recorded_below(self.matches@ + r.0@, self.ignored@ + r.1@, self.live@.len() as int),
            r.0@.len() + r.1@.len() == self.live@.len() - new_live_index,
            forall|i: int| 0 <= i < r.1@.len() ==> #[trigger] r.1@[i] < self.live@.len(),
    {
        let mut last = self.last_match();
        let mut matches: Vec<MatchPerScore> = Vec::new();
        let mut ignored: Vec<usize> = Vec::new();
        let mut i = new_live_index;
        proof {
            assert(self.matches@ + matches@ == self.matches@);
            assert(self.ignored@ + ignored@ == self.ignored@);
            if self.matches@.len() > 0 {
                let k = self.matches@.len() - 1;
                assert(self.matches@[k] == self.matches@.last());
            }
        }
        while i < self.live.len()
            invariant
                self.wf(),
                new_live_index <= i <= self.live@.len(),
                recorded_below(self.matches@ + matches@, self.ignored@ + ignored@, i as int),
                (self.matches@ + matches@, self.ignored@ + ignored@) == spec_follow(
                    self.score@,
                    self.live@,
                    self.matches@,
                    self.ignored@,
                    new_live_index as int,
                    i as int,
                ),
                matches_wf(self.score@, self.live@, self.matches@ + matches@),
                (self.matches@ + matches@).len() == 0 ==> last is None,
                (self.matches@ + matches@).len() > 0 ==> last == Some(
                    (self.matches@ + matches@).last(),
                ),
                matches@.len() + ignored@.len() == i - new_live_index,
                last is Some ==> last->0.score_index < self.score@.len() && last->0.live_index < i,
            decreases self.live@.len() - i,
        {
            let ghost all_m = self.matches@ + matches@;
            let ghost all_i = self.ignored@ + ignored@;
            let live_note = self.live[i];
            let score_len = self.score.len();
            let cursor: usize = match last {
                Some(m) => m.score_index + 1,
                None => 0,
            };
            proof {
                lemma_find_next(self.score@, cursor as int, live_note.pitch);
            }
            match find_next_match_starting_at(&self.score, cursor, live_note.pitch) {
                Some(score_index) => {
                    let stretch_factor = match last {
                        Some(prev) => next_stretch_factor(
                            prev.stretch_factor,
                            self.score[prev.score_index].time,
                            self.live[prev.live_index].time,
                            self.score[score_index].time,
                            live_note.time,
                        ),
                        None => StretchFactor::unit(),
                    };
                    let new_match = MatchPerScore::new(
                        score_index,
                        i,
                        stretch_factor,
                        self.score[score_index].velocity,
                        live_note.velocity,
                    );
                    matches.push(new_match);
                    last = Some(new_match);
                    assert(self.score@[score_index as int].pitch == live_note.pitch);
                    proof {
                        assert(self.matches@ + matches@ == all_m.push(new_match));
                        assert(self.ignored@ + ignored@ == all_i);
                    }
                }
                None => {
                    ignored.push(i);
                    proof {
                        assert(self.matches@ + matches@ == all_m);
                        assert(self.ignored@ + ignored@ == all_i.push(i));
                    }
                }
            }
            proof {
                assert(spec_follow(
                    self.score@,
                    self.live@,
                    self.matches@,
                    self.ignored@,
                    new_live_index as int,
                    i + 1,
                ) == spec_step(self.score@, self.live@, all_m, all_i, i as int));
            }
            i = i + 1;
        }
        proof {
            assert forall|k: int| 0 <= k < ignored@.len() implies #[trigger] ignored@[k]
                < self.live@.len() by {
                assert(ignored@[k] == (self.ignored@ + ignored@)[self.ignored@.len() + k]);
            }
        }
        (matches, ignored)
    }
}

} // verus!

verus! {

impl ScoreFollower for HomophonoPedantic {
    open spec fn follower_wf(&self) -> bool {
        self.wf()
    }

    open spec fn live_notes(&self) -> Seq<ScoreNote> {
        self.live@
    }

    open spec fn handled(&self) -> nat {
        self.matches@.len() + self.ignored@.len()
    }

    open spec fn handled_below(&self, n: int) -> bool {
        recorded_below(self.matches@, self.ignored@, n)
    }

    fn push_live(&mut self, note: ScoreNote) {
        HomophonoPedantic::push_live(self, note)
    }

    fn follow_score(&mut self, new_live_index: usize) -> (r: Result<(), &'static str>) {
        HomophonoPedantic::follow_score(self, new_live_index)
    }

    fn matches_slice(&self, start: usize, end: usize) -> Vec<MatchPerScore> {
        HomophonoPedantic::matches_slice(self, start, end)
    }
}

/// One step of the strict matcher keeps the matches consistent, records exactly live index
/// `i`, and adds one entry to the matches or to the ignored notes.
pub proof fn lemma_step_keeps_invariants(
    score: Seq<ScoreNote>,
    live: Seq<ScoreNote>,
    matches: Seq<MatchPerScore>,
    ignored: Seq<usize>,
    i: int,
)
    requires
        0 <= i < live.len(),
        live.len() <= usize::MAX,
        score.len() <= usize::MAX,
        matches_wf(score, live, matches),
        recorded_below(matches, ignored, i),
    ensures
        matches_wf(score, live, spec_step(score, live, matches, ignored, i).0),
        recorded_below(
            spec_step(score, live, matches, ignored, i).0,
            spec_step(score, live, matches, ignored, i).1,
            i + 1,
        ),
        spec_step(score, live, matches, ignored, i).0.len() + spec_step(
            score,
            live,
            matches,
            ignored,
            i,
        ).1.len() == matches.len() + ignored.len() + 1,
{
    let cursor = spec_cursor(matches);
    lemma_find_next(score, cursor, live[i].pitch);
    let (m2, i2) = spec_step(score, live, matches, ignored, i);
    if matches.len() > 0 {
        assert(matches.last() == matches[matches.len() - 1]);
    }
    match spec_find_next(score, cursor, live[i].pitch) {
        Some(s) => {
            let n = matches.len() as int;
            assert(m2 == matches.push(m2[n]));
            assert forall|a: int, b: int| 0 <= a < b < m2.len() implies (#[trigger] m2[a]).score_index
                < (#[trigger] m2[b]).score_index && m2[a].live_index < m2[b].live_index by {
                assert(m2[a] == matches[a]);
                if b < n {
                    assert(m2[b] == matches[b]);
                } else if a < n - 1 {
                    assert(matches[a].score_index < matches[n - 1].score_index);
                }
            }
            assert forall|a: int| 0 <= a < m2.len() implies (#[trigger] m2[a]).live_index < i + 1 by {
                if a < n {
                    assert(m2[a] == matches[a]);
                }
            }
            assert forall|a: int| 0 <= a < m2.len() implies {
                let m = #[trigger] m2[a];
                &&& m.score_index < score.len()
                &&& m.live_index < live.len()
                &&& score[m.score_index as int].pitch == live[m.live_index as int].pitch
                &&& m.stretch_factor.wf()
            } by {
                if a < n {
                    assert(m2[a] == matches[a]);
                }
            }
        },
        None => {
            let n = ignored.len() as int;
            assert forall|a: int, b: int| 0 <= a < b < i2.len() implies (#[trigger] i2[a]) < (
            #[trigger] i2[b]) by {
                assert(i2[a] == ignored[a]);
                if b < n {
                    assert(i2[b] == ignored[b]);
                }
            }
            assert forall|a: int| 0 <= a < i2.len() implies #[trigger] i2[a] < i + 1 by {
                if a < n {
                    assert(i2[a] == ignored[a]);
                }
            }
        },
    }
}

/// The strict matcher's invariants hold after any run: matches grow strictly in score and
/// live index, pair notes of equal pitch and carry finite, positive stretch factors, and every
/// handled live note is either matched or ignored, exactly once.
pub proof fn law_strict_matcher_invariants(
    score: Seq<ScoreNote>,
    live: Seq<ScoreNote>,
    matches: Seq<MatchPerScore>,
    ignored: Seq<usize>,
    from: int,
    to: int,
)
    requires
        0 <= from <= to <= live.len(),
        live.len() <= usize::MAX,
        score.len() <= usize::MAX,
        matches_wf(score, live, matches),
        recorded_below(matches, ignored, from),
    ensures
        matches_wf(score, live, spec_follow(score, live, matches, ignored, from, to).0),
        recorded_below(
            spec_follow(score, live, matches, ignored, from, to).0,
            spec_follow(score, live, matches, ignored, from, to).1,
            to,
        ),
        spec_follow(score, live, matches, ignored, from, to).0.len() + spec_follow(
            score,
            live,
            matches,
            ignored,
            from,
            to,
        ).1.len() == matches.len() + ignored.len() + (to - from),
    decreases to - from,
{
    if to > from {
        law_strict_matcher_invariants(score, live, matches, ignored, from, to - 1);
        let prev = spec_follow(score, live, matches, ignored, from, to - 1);
        lemma_step_keeps_invariants(score, live, prev.0, prev.1, to - 1);
    }
}

/// Starting from nothing, the strict matcher accounts for every live note: the number of
/// matches plus the number of ignored notes is the number of live notes.
pub proof fn law_strict_matcher_accounts_for_all_notes(
    score: Seq<ScoreNote>,
    live: Seq<ScoreNote>,
)
    requires
        live.len() <= usize::MAX,
        score.len() <= usize::MAX,
    ensures
        spec_follow(score, live, Seq::empty(), Seq::empty(), 0, live.len() as int).0.len()
            + spec_follow(score, live, Seq::empty(), Seq::empty(), 0, live.len() as int).1.len()
            == live.len(),
{
    law_strict_matcher_invariants(score, live, Seq::empty(), Seq::empty(), 0, live.len() as int);
}

} // verus!
