use vstd::prelude::*;

use crate::algo01_homophonopedantic::{spec_slice, MatchPerScore};
use crate::score::{notes_wf, sorted_by_time, ScoreNote};
use crate::{
    next_stretch_factor, spec_next_stretch_factor, spec_stretch, stretch, Match, ScoreFollower,
    StretchFactor,
};

verus! {

/// A match that points into the list of score positions of the live note's pitch.
#[derive(Clone, Copy, Debug, PartialEq, Eq, Structural)]
pub struct MatchPerPitch {
    pub score_per_pitch_index: usize,
    pub live_index: usize,
    pub stretch_factor: StretchFactor,
    pub score_velocity: u8,
    pub live_velocity: u8,
}

/// The positions in `score` of the notes with pitch `p`, in score order.
pub open spec fn positions_of(score: Seq<ScoreNote>, p: u8) -> Seq<usize>
    decreases score.len(),
{
    if score.len() == 0 {
        Seq::empty()
    } else {
        let rest = positions_of(score.drop_last(), p);
        if score.last().pitch == p {
            rest.push((score.len() - 1) as usize)
        } else {
            rest
        }
    }
}

/// The pitch of the live note that a match points to.
pub open spec fn pitch_of(live: Seq<ScoreNote>, m: MatchPerPitch) -> u8 {
    live[m.live_index as int].pitch
}

/// The positions in `matches` of the matches of live notes with pitch `p`, in order.
pub open spec fn match_positions(live: Seq<ScoreNote>, matches: Seq<MatchPerPitch>, p: u8) -> Seq<
    usize,
>
    decreases matches.len(),
{
    if matches.len() == 0 {
        Seq::empty()
    } else {
        let rest = match_positions(live, matches.drop_last(), p);
        if pitch_of(live, matches.last()) == p {
            rest.push((matches.len() - 1) as usize)
        } else {
            rest
        }
    }
}

/// The index in the expected score that a per-pitch match stands for.
pub open spec fn spec_score_index(
    score: Seq<ScoreNote>,
    live: Seq<ScoreNote>,
    m: MatchPerPitch,
) -> int {
    positions_of(score, pitch_of(live, m))[m.score_per_pitch_index as int] as int
}

/// The first position in the pitch's list not yet matched: one past the last match of a live
/// note of pitch `p`, or 0.
pub open spec fn spec_next_offset(live: Seq<ScoreNote>, matches: Seq<MatchPerPitch>, p: u8) -> int
    decreases matches.len(),
{
    if matches.len() == 0 {
        0
    } else if pitch_of(live, matches.last()) == p {
        matches.last().score_per_pitch_index + 1
    } else {
        spec_next_offset(live, matches.drop_last(), p)
    }
}

/// The live time elapsed since the last match, mapped into score time with that match's
/// stretch factor; 0 when nothing was matched yet.
pub open spec fn spec_live_time_mapped(
    live: Seq<ScoreNote>,
    matches: Seq<MatchPerPitch>,
    live_time: u64,
) -> u64 {
    if matches.len() == 0 {
        0
    } else {
        let m = matches.last();
        spec_stretch(
            (live_time - live[m.live_index as int].time) as u64,
            StretchFactor { live: m.stretch_factor.score, score: m.stretch_factor.live },
        )
    }
}

pub open spec fn spec_abs_diff(a: u64, b: u64) -> u64 {
    if b < a {
        (a - b) as u64
    } else {
        (b - a) as u64
    }
}

/// `d` is closer than the smallest distance found so far (any distance is, before the first).
pub open spec fn spec_closer(d: u64, min: Option<u64>) -> bool {
    match min {
        None => true,
        Some(m) => d < m,
    }
}

/// Scans `bucket` from `from` on while the distance between the score time and `t` keeps
/// shrinking below `min`; the offset where it stops shrinking, if any candidate was closer
/// than `min`. With no `min`, the first candidate is always taken.
pub open spec fn spec_best_offset(
    score: Seq<ScoreNote>,
    bucket: Seq<usize>,
    from: int,
    t: u64,
    min: Option<u64>,
) -> Option<int>
    decreases bucket.len() - from,
{
    if from < 0 || from >= bucket.len() {
        None
    } else {
        let d = spec_abs_diff(score[bucket[from] as int].time, t);
        if spec_closer(d, min) {
            match spec_best_offset(score, bucket, from + 1, t, Some(d)) {
                Some(o) => Some(o),
                None => Some(from),
            }
        } else {
            None
        }
    }
}

/// The stretch factor of a new match of a score note at `score_time` with a live note at
/// `live_time`.
pub open spec fn spec_flex_factor(
    score: Seq<ScoreNote>,
    live: Seq<ScoreNote>,
    matches: Seq<MatchPerPitch>,
    score_time: u64,
    live_time: u64,
) -> StretchFactor {
    if matches.len() == 0 {
        StretchFactor::spec_unit()
    } else {
        let m = matches.last();
        spec_next_stretch_factor(
            m.stretch_factor,
            score[spec_score_index(score, live, m)].time,
            live[m.live_index as int].time,
            score_time,
            live_time,
        )
    }
}

/// The match found for live note `i`, if any: the nearest in mapped time among the unmatched
/// score notes of its pitch.
pub open spec fn spec_new_match(
    score: Seq<ScoreNote>,
    live: Seq<ScoreNote>,
    matches: Seq<MatchPerPitch>,
    i: int,
) -> Option<MatchPerPitch> {
    let p = live[i].pitch;
    let bucket = positions_of(score, p);
    let t = spec_live_time_mapped(live, matches, live[i].time);
    match spec_best_offset(score, bucket, spec_next_offset(live, matches, p), t, None) {
        Some(o) => Some(
            MatchPerPitch {
                score_per_pitch_index: o as usize,
                live_index: i as usize,
                stretch_factor: spec_flex_factor(
                    score,
                    live,
                    matches,
                    score[bucket[o] as int].time,
                    live[i].time,
                ),
                score_velocity: score[bucket[o] as int].velocity,
                live_velocity: live[i].velocity,
            },
        ),
        None => None,
    }
}

/// Matches and ignored notes after live note `i` was handled.
pub open spec fn spec_flex_step(
    score: Seq<ScoreNote>,
    live: Seq<ScoreNote>,
    matches: Seq<MatchPerPitch>,
    ignored: Seq<usize>,
    i: int,
) -> (Seq<MatchPerPitch>, Seq<usize>) {
    match spec_new_match(score, live, matches, i) {
        Some(m) => (matches.push(m), ignored),
        None => (matches, ignored.push(i as usize)),
    }
}

/// Matches and ignored notes after the live notes `from .. to` were handled in order.
pub open spec fn spec_flex_follow(
    score: Seq<ScoreNote>,
    live: Seq<ScoreNote>,
    matches: Seq<MatchPerPitch>,
    ignored: Seq<usize>,
    from: int,
    to: int,
) -> (Seq<MatchPerPitch>, Seq<usize>)
    decreases to - from,
{
    if to <= from {
        (matches, ignored)
    } else {
        let prev = spec_flex_follow(score, live, matches, ignored, from, to - 1);
        spec_flex_step(score, live, prev.0, prev.1, to - 1)
    }
}

/// Each match points to a live note (keeping its velocity) and into its pitch's positions
/// with a positive stretch factor; live indices grow strictly, and so do the positions within each pitch.
pub open spec fn flex_matches_wf(
    score: Seq<ScoreNote>,
    live: Seq<ScoreNote>,
    matches: Seq<MatchPerPitch>,
) -> bool {
    &&& forall|i: int|
        0 <= i < matches.len() ==> {
            let m = #[trigger] matches[i];
            &&& m.live_index < live.len()
            &&& m.score_per_pitch_index < positions_of(score, pitch_of(live, m)).len()
            &&& m.stretch_factor.wf()
            &&& m.live_velocity == live[m.live_index as int].velocity
        }
    &&& forall|i: int, j: int|
        0 <= i < j < matches.len() ==> (#[trigger] matches[i]).live_index < (
        #[trigger] matches[j]).live_index
    &&& forall|i: int, j: int|
        0 <= i < j < matches.len() && pitch_of(live, matches[i]) == pitch_of(live, matches[j])
            ==> (#[trigger] matches[i]).score_per_pitch_index < (
        #[trigger] matches[j]).score_per_pitch_index
}

/// The positions of a pitch are in range, hold that pitch and grow strictly.
pub proof fn lemma_positions_of(score: Seq<ScoreNote>, p: u8)
    requires
        score.len() <= usize::MAX,
    ensures
        positions_of(score, p).len() <= score.len(),
        forall|j: int|
            0 <= j < positions_of(score, p).len() ==> #[trigger] positions_of(score, p)[j]
                < score.len() && score[positions_of(score, p)[j] as int].pitch == p,
        forall|j: int, k: int|
            0 <= j < k < positions_of(score, p).len() ==> #[trigger] positions_of(score, p)[j]
                < #[trigger] positions_of(score, p)[k],
    decreases score.len(),
{
    if score.len() > 0 {
        let n = score.len() - 1;
        let s2 = score.drop_last();
        lemma_positions_of(s2, p);
        let rest = positions_of(s2, p);
        let res = positions_of(score, p);
        if score[n].pitch == p {
            assert(res == rest.push(n as usize));
        } else {
            assert(res == rest);
        }
        assert forall|j: int| 0 <= j < res.len() implies #[trigger] res[j] < score.len()
            && score[res[j] as int].pitch == p by {
            if j < rest.len() {
                assert(res[j] == rest[j]);
                assert(s2[rest[j] as int] == score[rest[j] as int]);
            }
        }
        assert forall|j: int, k: int| 0 <= j < k < res.len() implies #[trigger] res[j]
            < #[trigger] res[k] by {
            assert(res[j] == rest[j]);
            if k < rest.len() {
                assert(res[k] == rest[k]);
            }
        }
    }
}

/// Positions of matches only depend on the live notes that the matches point to.
proof fn lemma_match_positions_extend(
    live: Seq<ScoreNote>,
    live2: Seq<ScoreNote>,
    matches: Seq<MatchPerPitch>,
    p: u8,
)
    requires
        live.len() <= live2.len(),
        forall|k: int| 0 <= k < live.len() ==> live2[k] == live[k],
        forall|i: int| 0 <= i < matches.len() ==> (#[trigger] matches[i]).live_index < live.len(),
    ensures
        match_positions(live2, matches, p) == match_positions(live, matches, p),
        spec_next_offset(live2, matches, p) == spec_next_offset(live, matches, p),
    decreases matches.len(),
{
    if matches.len() > 0 {
        let rest = matches.drop_last();
        assert forall|i: int| 0 <= i < rest.len() implies (#[trigger] rest[i]).live_index
            < live.len() by {
            assert(rest[i] == matches[i]);
        }
        lemma_match_positions_extend(live, live2, rest, p);
        assert(matches.last() == matches[matches.len() - 1]);
    }
}

/// The next offset of a pitch is one past the position of its last match.
proof fn lemma_next_offset(live: Seq<ScoreNote>, matches: Seq<MatchPerPitch>, p: u8)
    requires
        matches.len() <= usize::MAX,
    ensures
        ({
            let mp = match_positions(live, matches, p);
            &&& mp.len() == 0 ==> spec_next_offset(live, matches, p) == 0
            &&& mp.len() > 0 ==> mp.last() < matches.len() && spec_next_offset(live, matches, p)
                == matches[mp.last() as int].score_per_pitch_index + 1 && pitch_of(
                live,
                matches[mp.last() as int],
            ) == p
        }),
    decreases matches.len(),
{
    if matches.len() > 0 {
        let n = matches.len() - 1;
        assert(matches.last() == matches[n]);
        lemma_next_offset(live, matches.drop_last(), p);
        let rest = match_positions(live, matches.drop_last(), p);
        let mp = match_positions(live, matches, p);
        if pitch_of(live, matches[n]) == p {
            assert(mp == rest.push(n as usize));
        } else {
            assert(mp == rest);
            if rest.len() > 0 {
                assert(matches.drop_last()[rest.last() as int] == matches[rest.last() as int]);
            }
        }
    }
}

/// Every match of pitch `p` lies before the next offset of `p`.
proof fn lemma_next_offset_above(
    score: Seq<ScoreNote>,
    live: Seq<ScoreNote>,
    matches: Seq<MatchPerPitch>,
    p: u8,
)
    requires
        flex_matches_wf(score, live, matches),
    ensures
        forall|k: int|
            0 <= k < matches.len() && pitch_of(live, matches[k]) == p ==> (
            #[trigger] matches[k]).score_per_pitch_index < spec_next_offset(live, matches, p),
        spec_next_offset(live, matches, p) >= 0,
    decreases matches.len(),
{
    if matches.len() > 0 {
        let rest = matches.drop_last();
        assert forall|i: int| 0 <= i < rest.len() implies #[trigger] rest[i] == matches[i] by {}
        assert(flex_matches_wf(score, live, rest));
        lemma_next_offset_above(score, live, rest, p);
        let n = matches.len() - 1;
        assert(matches.last() == matches[n]);
        assert forall|k: int|
            0 <= k < matches.len() && pitch_of(live, matches[k]) == p implies (
            #[trigger] matches[k]).score_per_pitch_index < spec_next_offset(live, matches, p) by {
            if k < n {
                assert(rest[k] == matches[k]);
            }
        }
    }
}

/// A best offset lies between `from` and the end of the bucket.
proof fn lemma_best_offset(
    score: Seq<ScoreNote>,
    bucket: Seq<usize>,
    from: int,
    t: u64,
    min: Option<u64>,
)
    ensures
        spec_best_offset(score, bucket, from, t, min) is Some ==> from <= spec_best_offset(
            score,
            bucket,
            from,
            t,
            min,
        )->0 < bucket.len(),
    decreases bucket.len() - from,
{
    if 0 <= from < bucket.len() {
        let d = spec_abs_diff(score[bucket[from] as int].time, t);
        lemma_best_offset(score, bucket, from + 1, t, Some(d));
    }
}

impl MatchPerPitch {
    fn new(
        score_per_pitch_index: usize,
        live_index: usize,
        stretch_factor: StretchFactor,
        score_velocity: u8,
        live_velocity: u8,
    ) -> (r: MatchPerPitch)
        ensures
            r == (MatchPerPitch {
                score_per_pitch_index,
                live_index,
                stretch_factor,
                score_velocity,
                live_velocity,
            }),
    {
        MatchPerPitch {
            score_per_pitch_index,
            live_index,
            stretch_factor,
            score_velocity,
            live_velocity,
        }
    }

    pub fn score_per_pitch_index(&self) -> (r: usize)
        ensures
            r == self.score_per_pitch_index,
    {
        self.score_per_pitch_index
    }

    /// The same match, pointing directly into the expected score.
    pub fn to_match_per_score(
        self,
        score_offsets_by_pitch: &Vec<Vec<usize>>,
        live: &Vec<ScoreNote>,
    ) -> (r: MatchPerScore)
        requires
            self.live_index < live@.len(),
            (live@[self.live_index as int].pitch as int) < score_offsets_by_pitch@.len(),
            self.score_per_pitch_index
                < score_offsets_by_pitch@[live@[self.live_index as int].pitch as int]@.len(),
        ensures
            r == (MatchPerScore {
                score_index: score_offsets_by_pitch@[live@[self.live_index as int].pitch as int]@[self.score_per_pitch_index as int],
                live_index: self.live_index,
                stretch_factor: self.stretch_factor,
                score_velocity: self.score_velocity,
                live_velocity: self.live_velocity,
            }),
    {
        let pitch = live[self.live_index].pitch as usize;
        let score_per_pitch = &score_offsets_by_pitch[pitch];
        let score_index = score_per_pitch[self.score_per_pitch_index];
        MatchPerScore::new(
            score_index,
            self.live_index,
            self.stretch_factor,
            self.score_velocity,
            self.live_velocity,
        )
    }
}

impl Match for MatchPerPitch {
    open spec fn spec_live_index(&self) -> usize {
        self.live_index
    }

    open spec fn spec_live_velocity(&self) -> u8 {
        self.live_velocity
    }

    open spec fn spec_stretch_factor(&self) -> StretchFactor {
        self.stretch_factor
    }

    fn live_note(&self, live: &Vec<ScoreNote>) -> (r: Result<ScoreNote, &'static str>) {
        if self.live_index < live.len() {
            Ok(live[self.live_index])
        } else {
            Err("Match points beyond list of live events")
        }
    }

    fn live_time(&self, live: &Vec<ScoreNote>) -> (r: Result<u64, &'static str>) {
        let note = self.live_note(live)?;
        Ok(note.time)
    }

    fn live_velocity(&self) -> (r: u8) {
        self.live_velocity
    }

    fn stretch_factor(&self) -> (r: StretchFactor) {
        self.stretch_factor
    }
}

/// Combines a best offset still to be found with the best one found so far.
pub open spec fn or_else(a: Option<int>, b: Option<usize>) -> Option<int> {
    match a {
        Some(x) => Some(x),
        None => match b {
            Some(y) => Some(y as int),
            None => None,
        },
    }
}

/// A per-pitch match seen as a match into the expected score.
pub open spec fn spec_to_match_per_score(
    score: Seq<ScoreNote>,
    live: Seq<ScoreNote>,
    m: MatchPerPitch,
) -> MatchPerScore {
    MatchPerScore {
        score_index: spec_score_index(score, live, m) as usize,
        live_index: m.live_index,
        stretch_factor: m.stretch_factor,
        score_velocity: m.score_velocity,
        live_velocity: m.live_velocity,
    }
}

/// Every live index recorded in `matches` or `ignored` is below `n`, and `ignored` grows.
pub open spec fn flex_recorded_below(
    matches: Seq<MatchPerPitch>,
    ignored: Seq<usize>,
    n: int,
) -> bool {
    &&& forall|i: int| 0 <= i < matches.len() ==> (#[trigger] matches[i]).live_index < n
    &&& forall|i: int| 0 <= i < ignored.len() ==> #[trigger] ignored[i] < n
    &&& forall|i: int, j: int|
        0 <= i < j < ignored.len() ==> (#[trigger] ignored[i]) < (#[trigger] ignored[j])
}

/// Pitch-indexed matcher: supports polyphony, and pairs each live note with the unmatched
/// score note of its pitch that is nearest in mapped time.
pub struct PolyphonoFlex {
    score: Vec<ScoreNote>,
    score_offsets_by_pitch: Vec<Vec<usize>>,
    live: Vec<ScoreNote>,
    matches: Vec<MatchPerPitch>,
    match_offsets_by_pitch: Vec<Vec<usize>>,
    ignored: Vec<usize>,
}

impl PolyphonoFlex {
    /// The expected score.
    pub closed spec fn score_view(&self) -> Seq<ScoreNote> {
        self.score@
    }

    /// The live performance so far.
    pub closed spec fn live_view(&self) -> Seq<ScoreNote> {
        self.live@
    }

    /// The matches so far.
    pub closed spec fn matches_view(&self) -> Seq<MatchPerPitch> {
        self.matches@
    }

    /// The ignored live indices so far.
    pub closed spec fn ignored_view(&self) -> Seq<usize> {
        self.ignored@
    }

    /// Notes are well formed, the live notes come in time order, both per-pitch directories
    /// agree with the score and the matches, and the matches are consistent.
    pub closed spec fn wf(&self) -> bool {
        &&& notes_wf(self.score@)
        &&& notes_wf(self.live@)
        &&& sorted_by_time(self.live@)
        &&& self.score_offsets_by_pitch@.len() == 128
        &&& forall|p: int|
            0 <= p < 128 ==> (#[trigger] self.score_offsets_by_pitch@[p])@ == positions_of(
                self.score@,
                p as u8,
            )
        &&& self.match_offsets_by_pitch@.len() == 128
        &&& forall|p: int|
            0 <= p < 128 ==> (#[trigger] self.match_offsets_by_pitch@[p])@ == match_positions(
                self.live@,
                self.matches@,
                p as u8,
            )
        &&& flex_matches_wf(self.score@, self.live@, self.matches@)
        &&& forall|i: int| 0 <= i < self.ignored@.len() ==> #[trigger] self.ignored@[i] < self.live@.len()
    }

    pub fn new(score: Vec<ScoreNote>) -> (r: PolyphonoFlex)
        requires
            notes_wf(score@),
        ensures
            r.wf(),
            r.score_view() == score@,
            r.live_view().len() == 0,
            r.matches_view().len() == 0,
            r.ignored_view().len() == 0,
    {
        let score_offsets_by_pitch = score_by_pitch(&score);
        let match_offsets_by_pitch = empty_lists();
        let r = PolyphonoFlex {
            score,
            score_offsets_by_pitch,
            live: Vec::new(),
            matches: Vec::new(),
            match_offsets_by_pitch,
            ignored: Vec::new(),
        };
        assert forall|p: int| 0 <= p < 128 implies (#[trigger] r.match_offsets_by_pitch@[p])@
            == match_positions(r.live@, r.matches@, p as u8) by {
            assert(r.match_offsets_by_pitch@[p]@ =~= Seq::<usize>::empty());
        }
        r
    }

    /// The positions in the matches of those whose live note has pitch `pitch`, in order.
    pub fn match_offsets_for_pitch(&self, pitch: u8) -> (r: &Vec<usize>)
        requires
            self.wf(),
            pitch < 128,
        ensures
            r@ == match_positions(self.live_view(), self.matches_view(), pitch),
    {
        &self.match_offsets_by_pitch[pitch as usize]
    }

    /// The expected score.
    pub fn score(&self) -> (r: &Vec<ScoreNote>)
        ensures
            r@ == self.score_view(),
    {
        &self.score
    }

    /// The live performance so far.
    pub fn live(&self) -> (r: &Vec<ScoreNote>)
        ensures
            r@ == self.live_view(),
    {
        &self.live
    }

    /// The matches so far.
    pub fn matches(&self) -> (r: &Vec<MatchPerPitch>)
        ensures
            r@ == self.matches_view(),
    {
        &self.matches
    }

    /// The ignored live indices so far.
    pub fn ignored(&self) -> (r: &Vec<usize>)
        ensures
            r@ == self.ignored_view(),
    {
        &self.ignored
    }

    /// Appends a note to the live performance.
    pub fn push_live(&mut self, note: ScoreNote)
        requires
            old(self).wf(),
            note.wf(),
            old(self).live_view().len() > 0 ==> old(self).live_view().last().time <= note.time,
        ensures
            final(self).wf(),
            final(self).live_view() == old(self).live_view().push(note),
            final(self).score_view() == old(self).score_view(),
            final(self).matches_view() == old(self).matches_view(),
            final(self).ignored_view() == old(self).ignored_view(),
    {
        let ghost live0 = self.live@;
        self.live.push(note);
        proof {
            assert forall|i: int| 0 <= i < self.matches@.len() implies (
            #[trigger] self.matches@[i]).live_index < live0.len() by {}
            assert forall|p: int| 0 <= p < 128 implies (
            #[trigger] self.match_offsets_by_pitch@[p])@ == match_positions(
                self.live@,
                self.matches@,
                p as u8,
            ) by {
                lemma_match_positions_extend(live0, self.live@, self.matches@, p as u8);
            }
            assert forall|i: int| 0 <= i < self.matches@.len() implies pitch_of(
                self.live@,
                #[trigger] self.matches@[i],
            ) == pitch_of(live0, self.matches@[i]) by {}
        }
    }

    fn last_per_pitch_match(&self) -> (r: Option<MatchPerPitch>)
        ensures
            self.matches@.len() == 0 ==> r is None,
            self.matches@.len() > 0 ==> r == Some(self.matches@.last()),
    {
        if self.matches.len() == 0 {
            None
        } else {
            Some(self.matches[self.matches.len() - 1])
        }
    }

    /// The most recent match, pointing into the expected score.
    pub fn last_match(&self) -> (r: Option<MatchPerScore>)
        requires
            self.wf(),
        ensures
            self.matches_view().len() == 0 ==> r is None,
            self.matches_view().len() > 0 ==> r == Some(
                spec_to_match_per_score(
                    self.score_view(),
                    self.live_view(),
                    self.matches_view().last(),
                ),
            ),
    {
        match self.last_per_pitch_match() {
            Some(m) => {
                assert(self.matches@[self.matches@.len() - 1] == m);
                Some(m.to_match_per_score(&self.score_offsets_by_pitch, &self.live))
            },
            None => None,
        }
    }

    /// The matches from `start` up to, not including, `end`, pointing into the expected score;
    /// `end` is cut at the number of matches.
    pub fn matches_slice(&self, start: usize, end: usize) -> (r: Vec<MatchPerScore>)
        requires
            self.wf(),
        ensures
            r@ == spec_slice(self.matches_view(), start as int, end as int).map_values(
                |m: MatchPerPitch| spec_to_match_per_score(self.score_view(), self.live_view(), m),
            ),
    {
        let mut r: Vec<MatchPerScore> = Vec::new();
        let stop = if end < self.matches.len() {
            end
        } else {
            self.matches.len()
        };
        if start >= stop {
            proof {
                assert(spec_slice(self.matches@, start as int, end as int) =~= Seq::<
                    MatchPerPitch,
                >::empty());
            }
            assert(r@ =~= spec_slice(self.matches_view(), start as int, end as int).map_values(
                |m: MatchPerPitch| spec_to_match_per_score(self.score_view(), self.live_view(), m),
            ));
            return r;
        }
        let mut i = start;
        while i < stop
            invariant
                self.wf(),
                start <= i <= stop <= self.matches@.len(),
                stop as int == crate::algo01_homophonopedantic::spec_min(
                    end as int,
                    self.matches@.len() as int,
                ),
                r@ == self.matches@.subrange(start as int, i as int).map_values(
                    |m: MatchPerPitch| spec_to_match_per_score(self.score@, self.live@, m),
                ),
            decreases stop - i,
        {
            let m = self.matches[i];
            assert(self.matches@[i as int] == m);
            r.push(m.to_match_per_score(&self.score_offsets_by_pitch, &self.live));
            proof {
                assert(r@ =~= self.matches@.subrange(start as int, i + 1).map_values(
                    |m: MatchPerPitch| spec_to_match_per_score(self.score@, self.live@, m),
                ));
            }
            i = i + 1;
        }
        r
    }

    /// The score note that a match points to, or an error where it points beyond the live
    /// performance or beyond its pitch's positions.
    pub fn match_score_note(&self, m: MatchPerPitch) -> (r: Result<ScoreNote, &'static str>)
        requires
            self.wf(),
        ensures
            m.live_index < self.live_view().len() && m.score_per_pitch_index < positions_of(
                self.score_view(),
                pitch_of(self.live_view(), m),
            ).len() ==> r == Ok::<ScoreNote, &'static str>(
                self.score_view()[spec_score_index(self.score_view(), self.live_view(), m)],
            ),
            !(m.live_index < self.live_view().len() && m.score_per_pitch_index < positions_of(
                self.score_view(),
                pitch_of(self.live_view(), m),
            ).len()) ==> r is Err,
    {
        let note = m.live_note(&self.live)?;
        assert(note.wf());
        let pitch = note.pitch as usize;
        if m.score_per_pitch_index >= self.score_offsets_by_pitch[pitch].len() {
            return Err("Match points beyond list of score events");
        }
        proof {
            lemma_positions_of_vec(&self.score, note.pitch);
        }
        let sm = m.to_match_per_score(&self.score_offsets_by_pitch, &self.live);
        sm.score_note(&self.score)
    }

    /// Offset, in the positions of `pitch`, of the first score note not matched yet.
    fn get_next_unmatched_offset_for_pitch(&self, pitch: u8) -> (r: usize)
        requires
            self.wf(),
            pitch < 128,
        ensures
            r == spec_next_offset(self.live@, self.matches@, pitch),
            r <= positions_of(self.score@, pitch).len(),
    {
        let n = self.matches.len();
        proof {
            lemma_next_offset(self.live@, self.matches@, pitch);
        }
        let match_offsets_for_pitch = &self.match_offsets_by_pitch[pitch as usize];
        assert(match_offsets_for_pitch@ == match_positions(self.live@, self.matches@, pitch));
        if match_offsets_for_pitch.len() > 0 {
            let match_index = match_offsets_for_pitch[match_offsets_for_pitch.len() - 1];
            let last_match_for_pitch = self.matches[match_index];
            assert(self.matches@[match_index as int] == last_match_for_pitch);
            proof {
                lemma_positions_of_vec(&self.score, pitch);
            }
            last_match_for_pitch.score_per_pitch_index + 1
        } else {
            0
        }
    }

    /// The live time elapsed since the last match mapped into score time; 0 before any match.
    fn live_time_mapped(&self, live_time: u64) -> (r: u64)
        requires
            self.wf(),
            self.matches@.len() > 0 ==> self.live@[self.matches@.last().live_index as int].time
                <= live_time,
        ensures
            r == spec_live_time_mapped(self.live@, self.matches@, live_time),
    {
        match self.last_per_pitch_match() {
            Some(last_match) => {
                assert(self.matches@[self.matches@.len() - 1] == last_match);
                let last_time = self.live[last_match.live_index].time;
                stretch(live_time - last_time, last_match.stretch_factor.inverse())
            },
            None => 0,
        }
    }

    /// The stretch factor of a new match of `new_match_in_score` with a live note played at
    /// `new_match_in_live_time`.
    fn get_stretch_factor_at_new_match(
        &self,
        new_match_in_score: ScoreNote,
        new_match_in_live_time: u64,
    ) -> (r: StretchFactor)
        requires
            self.wf(),
        ensures
            r == spec_flex_factor(
                self.score@,
                self.live@,
                self.matches@,
                new_match_in_score.time,
                new_match_in_live_time,
            ),
            r.wf(),
    {
        match self.last_per_pitch_match() {
            Some(last_match) => {
                assert(self.matches@[self.matches@.len() - 1] == last_match);
                let prev_match_in_live = self.live[last_match.live_index];
                assert(prev_match_in_live.wf());
                let prev = last_match.to_match_per_score(&self.score_offsets_by_pitch, &self.live);
                proof {
                    lemma_positions_of_vec(&self.score, prev_match_in_live.pitch);
                }
                let prev_match_in_score = self.score[prev.score_index];
                next_stretch_factor(
                    last_match.stretch_factor,
                    prev_match_in_score.time,
                    prev_match_in_live.time,
                    new_match_in_score.time,
                    new_match_in_live_time,
                )
            },
            None => StretchFactor::unit(),
        }
    }

    /// Matches the live notes from `new_live_index` on, in order, with the score.
    pub fn follow_score(&mut self, new_live_index: usize) -> (r: Result<(), &'static str>)
        requires
            old(self).wf(),
            new_live_index <= old(self).live_view().len(),
            flex_recorded_below(
                old(self).matches_view(),
                old(self).ignored_view(),
                new_live_index as int,
            ),
        ensures
            r is Ok,
            final(self).wf(),
            flex_matches_wf(final(self).score_view(), final(self).live_view(), final(self).matches_view()),
            old(self).matches_view().len() + old(self).ignored_view().len() == new_live_index
                ==> final(self).matches_view().len() + final(self).ignored_view().len()
                == final(self).live_view().len(),
            final(self).score_view() == old(self).score_view(),
            final(self).live_view() == old(self).live_view(),
            (final(self).matches_view(), final(self).ignored_view()) == spec_flex_follow(
                old(self).score_view(),
                old(self).live_view(),
                old(self).matches_view(),
                old(self).ignored_view(),
                new_live_index as int,
                old(self).live_view().len() as int,
            ),
            flex_recorded_below(
                final(self).matches_view(),
                final(self).ignored_view(),
                final(self).live_view().len() as int,
            ),
            final(self).matches_view().len() + final(self).ignored_view().len() - (
            old(self).matches_view().len() + old(self).ignored_view().len())
                == old(self).live_view().len() - new_live_index,
    {
        let mut i = new_live_index;
        while i < self.live.len()
            invariant
                self.wf(),
                self.score@ == old(self).score@,
                self.live@ == old(self).live@,
                new_live_index <= i <= self.live@.len(),
                (self.matches@, self.ignored@) == spec_flex_follow(
                    old(self).score@,
                    old(self).live@,
                    old(self).matches@,
                    old(self).ignored@,
                    new_live_index as int,
                    i as int,
                ),
                flex_recorded_below(self.matches@, self.ignored@, i as int),
                self.matches@.len() + self.ignored@.len() - (old(self).matches@.len()
                    + old(self).ignored@.len()) == i - new_live_index,
            decreases self.live@.len() - i,
        {
            self.follow_live_note(i);
            i = i + 1;
        }
        Ok(())
    }

    /// Handles live note `i`: records its match, or records it as ignored.
    fn follow_live_note(&mut self, i: usize)
        requires
            old(self).wf(),
            i < old(self).live@.len(),
            flex_recorded_below(old(self).matches@, old(self).ignored@, i as int),
        ensures
            final(self).wf(),
            final(self).score@ == old(self).score@,
            final(self).live@ == old(self).live@,
            (final(self).matches@, final(self).ignored@) == spec_flex_step(
                old(self).score@,
                old(self).live@,
                old(self).matches@,
                old(self).ignored@,
                i as int,
            ),
            flex_recorded_below(final(self).matches@, final(self).ignored@, i + 1),
    {
        let ghost matches0 = self.matches@;
        let live_note = self.live[i];
        assert(live_note.wf());
        let pitch = live_note.pitch;
        proof {
            let s = self.score@;
            let bucket = positions_of(s, pitch);
            let t = spec_live_time_mapped(self.live@, matches0, live_note.time);
            lemma_best_offset(s, bucket, spec_next_offset(self.live@, matches0, pitch), t, None);
            lemma_next_offset_above(s, self.live@, matches0, pitch);
            lemma_positions_of_vec(&self.score, pitch);
        }
        match self.find_new_match(i) {
            Some(new_match) => {
                let k = self.matches.len();
                self.matches.push(new_match);
                self.match_offsets_by_pitch[pitch as usize].push(k);
                proof {
                    let ghost bucket = positions_of(self.score@, pitch);
                    let ghost t = spec_live_time_mapped(self.live@, matches0, live_note.time);
                    let ghost next = spec_next_offset(self.live@, matches0, pitch);
                    let ghost o = spec_best_offset(self.score@, bucket, next, t, None);
                    assert(live_note == self.live@[i as int]);
                    assert(o is Some);
                    assert(next <= o->0 < bucket.len());
                    assert(new_match.score_per_pitch_index == o->0);
                    assert(self.matches@.drop_last() == matches0);
                    assert(self.matches@.last() == new_match);
                    assert(pitch_of(self.live@, new_match) == pitch);
                    assert forall|p: int| 0 <= p < 128 implies (
                    #[trigger] self.match_offsets_by_pitch@[p])@ == match_positions(
                        self.live@,
                        self.matches@,
                        p as u8,
                    ) by {}
                    assert forall|a: int| 0 <= a < self.matches@.len() implies {
                        let m = #[trigger] self.matches@[a];
                        &&& m.live_index < self.live@.len()
                        &&& m.score_per_pitch_index < positions_of(
                            self.score@,
                            pitch_of(self.live@, m),
                        ).len()
                        &&& m.stretch_factor.wf()
                        &&& m.live_velocity == self.live@[m.live_index as int].velocity
                    } by {
                        if a < k {
                            assert(self.matches@[a] == matches0[a]);
                        }
                    }
                    assert forall|a: int, b: int|
                        0 <= a < b < self.matches@.len() implies (
                        #[trigger] self.matches@[a]).live_index < (
                        #[trigger] self.matches@[b]).live_index by {
                        assert(self.matches@[a] == matches0[a]);
                        if b < k {
                            assert(self.matches@[b] == matches0[b]);
                        }
                    }
                    assert forall|a: int, b: int|
                        0 <= a < b < self.matches@.len() && pitch_of(self.live@, self.matches@[a])
                            == pitch_of(self.live@, self.matches@[b]) implies (
                        #[trigger] self.matches@[a]).score_per_pitch_index < (
                        #[trigger] self.matches@[b]).score_per_pitch_index by {
                        assert(self.matches@[a] == matches0[a]);
                        if b < k {
                            assert(self.matches@[b] == matches0[b]);
                        } else {
                            assert(new_match.score_per_pitch_index >= spec_next_offset(
                                self.live@,
                                matches0,
                                pitch,
                            ));
                        }
                    }
                }
            },
            None => {
                self.ignored.push(i);
            },
        }
    }

    /// The match for live note `i`, if any.
    fn find_new_match(&self, i: usize) -> (r: Option<MatchPerPitch>)
        requires
            self.wf(),
            i < self.live@.len(),
            forall|k: int| 0 <= k < self.matches@.len() ==> (#[trigger] self.matches@[k]).live_index < i,
        ensures
            r == spec_new_match(self.score@, self.live@, self.matches@, i as int),
    {
        let live_note = self.live[i];
        assert(live_note.wf());
        if self.matches.len() > 0 {
            assert(self.matches@[self.matches@.len() - 1] == self.matches@.last());
        }
        let next_unmatched_offset_for_pitch = self.get_next_unmatched_offset_for_pitch(
            live_note.pitch,
        );
        let pitch = live_note.pitch as usize;
        let score_for_pitch = &self.score_offsets_by_pitch[pitch];
        assert(score_for_pitch@ == positions_of(self.score@, live_note.pitch));
        proof {
            lemma_positions_of_vec(&self.score, live_note.pitch);
        }
        let live_time_mapped = self.live_time_mapped(live_note.time);
        let mut min_time_diff: Option<u64> = None;
        let mut best_match_pitch_score_index: Option<usize> = None;
        let mut j = next_unmatched_offset_for_pitch;
        while j < score_for_pitch.len()
            invariant
                next_unmatched_offset_for_pitch <= j <= score_for_pitch@.len(),
                score_for_pitch@ == positions_of(self.score@, live_note.pitch),
                forall|k: int|
                    0 <= k < score_for_pitch@.len() ==> #[trigger] score_for_pitch@[k]
                        < self.score@.len(),
                best_match_pitch_score_index is Some ==> best_match_pitch_score_index->0
                    < score_for_pitch@.len(),
                spec_best_offset(
                    self.score@,
                    score_for_pitch@,
                    next_unmatched_offset_for_pitch as int,
                    live_time_mapped,
                    None,
                ) == or_else(
                    spec_best_offset(
                        self.score@,
                        score_for_pitch@,
                        j as int,
                        live_time_mapped,
                        min_time_diff,
                    ),
                    best_match_pitch_score_index,
                ),
            decreases score_for_pitch@.len() - j,
        {
            let score_note_offset = score_for_pitch[j];
            let score_note = self.score[score_note_offset];
            let time_diff = absolute_time_difference(score_note.time, live_time_mapped);
            let closer = match min_time_diff {
                None => true,
                Some(m) => time_diff < m,
            };
            if closer {
                best_match_pitch_score_index = Some(j);
                min_time_diff = Some(time_diff);
                j = j + 1;
            } else {
                j = score_for_pitch.len();
            }
        }
        match best_match_pitch_score_index {
            Some(index) => {
                let best_match_score_offset = score_for_pitch[index];
                let best_match_score_note = self.score[best_match_score_offset];
                let stretch_factor = self.get_stretch_factor_at_new_match(
                    best_match_score_note,
                    live_note.time,
                );
                Some(
                    MatchPerPitch::new(
                        index,
                        i,
                        stretch_factor,
                        best_match_score_note.velocity,
                        live_note.velocity,
                    ),
                )
            },
            None => None,
        }
    }
}

/// [`lemma_positions_of`] for the notes of a vector.
proof fn lemma_positions_of_vec(score: &Vec<ScoreNote>, p: u8)
    ensures
        score@.len() <= usize::MAX,
        positions_of(score@, p).len() <= score@.len(),
        forall|j: int|
            0 <= j < positions_of(score@, p).len() ==> #[trigger] positions_of(score@, p)[j]
                < score@.len() && score@[positions_of(score@, p)[j] as int].pitch == p,
        forall|j: int, k: int|
            0 <= j < k < positions_of(score@, p).len() ==> #[trigger] positions_of(score@, p)[j]
                < #[trigger] positions_of(score@, p)[k],
{
    assert(score@.len() == score.len());
    lemma_positions_of(score@, p);
}

/// The positions of each of the 128 pitches in `score`.
fn score_by_pitch(score: &Vec<ScoreNote>) -> (r: Vec<Vec<usize>>)
    requires
        notes_wf(score@),
    ensures
        r@.len() == 128,
        forall|p: int| 0 <= p < 128 ==> (#[trigger] r@[p])@ == positions_of(score@, p as u8),
{
    let mut vecs: Vec<Vec<usize>> = empty_lists();
    let mut i: usize = 0;
    while i < score.len()
        invariant
            notes_wf(score@),
            i <= score@.len(),
            vecs@.len() == 128,
            forall|p: int|
                0 <= p < 128 ==> (#[trigger] vecs@[p])@ == positions_of(
                    score@.take(i as int),
                    p as u8,
                ),
        decreases score@.len() - i,
    {
        let pitch = score[i].pitch as usize;
        assert(score@[i as int].wf());
        vecs[pitch].push(i);
        proof {
            assert(score@.take(i + 1).drop_last() == score@.take(i as int));
            assert forall|p: int| 0 <= p < 128 implies (#[trigger] vecs@[p])@ == positions_of(
                score@.take(i + 1),
                p as u8,
            ) by {
                assert(score@.take(i + 1).last() == score@[i as int]);
            }
        }
        i = i + 1;
    }
    assert(score@.take(score@.len() as int) == score@);
    vecs
}

/// 128 empty lists, one per pitch.
fn empty_lists() -> (r: Vec<Vec<usize>>)
    ensures
        r@.len() == 128,
        forall|p: int| 0 <= p < 128 ==> (#[trigger] r@[p])@.len() == 0,
{
    let mut vecs: Vec<Vec<usize>> = Vec::new();
    let mut p: usize = 0;
    while p < 128
        invariant
            p <= 128,
            vecs@.len() == p,
            forall|q: int| 0 <= q < p ==> (#[trigger] vecs@[q])@.len() == 0,
        decreases 128 - p,
    {
        vecs.push(Vec::new());
        p = p + 1;
    }
    vecs
}

/// The distance between two times.
pub fn absolute_time_difference(t1: u64, t2: u64) -> (r: u64)
    ensures
        r == spec_abs_diff(t1, t2),
{
    if t2 < t1 {
        t1 - t2
    } else {
        t2 - t1
    }
}

} // verus!

verus! {

/// A flex follower's invariants: live indices grow strictly; within each pitch the matched
/// score indices grow strictly; every match pairs notes of equal pitch and carries a finite,
/// positive stretch factor.
pub proof fn law_flex_follower_invariants(f: &PolyphonoFlex)
    requires
        f.wf(),
    ensures
        flex_matches_wf(f.score_view(), f.live_view(), f.matches_view()),
        ({
            let (score, live, m) = (f.score_view(), f.live_view(), f.matches_view());
            &&& forall|k: int|
                0 <= k < m.len() ==> 0 <= spec_score_index(score, live, #[trigger] m[k])
                    < score.len() && score[spec_score_index(score, live, m[k])].pitch
                    == live[m[k].live_index as int].pitch && m[k].stretch_factor.wf()
            &&& forall|a: int, b: int|
                0 <= a < b < m.len() && pitch_of(live, m[a]) == pitch_of(live, m[b])
                    ==> spec_score_index(score, live, #[trigger] m[a]) < spec_score_index(
                    score,
                    live,
                    #[trigger] m[b],
                )
            &&& forall|a: int, b: int|
                0 <= a < b < m.len() ==> (#[trigger] m[a]).live_index < (#[trigger] m[b]).live_index
        }),
{
    let (score, live, m) = (f.score_view(), f.live_view(), f.matches_view());
    assert(score.len() <= usize::MAX) by {
        lemma_positions_of_vec(&f.score, 0);
    }
    assert forall|k: int| 0 <= k < m.len() implies 0 <= spec_score_index(
        score,
        live,
        #[trigger] m[k],
    ) < score.len() && score[spec_score_index(score, live, m[k])].pitch == live[m[k].live_index as int].pitch
        && m[k].stretch_factor.wf() by {
        lemma_positions_of(score, pitch_of(live, m[k]));
    }
    assert forall|a: int, b: int|
        0 <= a < b < m.len() && pitch_of(live, m[a]) == pitch_of(live, m[b]) implies spec_score_index(
        score,
        live,
        #[trigger] m[a],
    ) < spec_score_index(score, live, #[trigger] m[b]) by {
        lemma_positions_of(score, pitch_of(live, m[a]));
    }
}

/// A live note is never ignored while an unmatched occurrence of its pitch remains: the
/// first unmatched occurrence is always a candidate, however far it lies in time.
pub proof fn law_flex_unmatched_occurrence_is_matched(
    score: Seq<ScoreNote>,
    live: Seq<ScoreNote>,
    matches: Seq<MatchPerPitch>,
    i: int,
)
    requires
        0 <= i < live.len(),
        0 <= spec_next_offset(live, matches, live[i].pitch) < positions_of(score, live[i].pitch).len(),
    ensures
        spec_new_match(score, live, matches, i) is Some,
{
}

/// With nothing matched yet, a live note whose pitch occurs in a score sorted by time is
/// matched with the first occurrence of that pitch, whatever its time, at stretch factor 1.
pub proof fn law_flex_first_note_takes_first_occurrence(
    score: Seq<ScoreNote>,
    live: Seq<ScoreNote>,
    i: int,
)
    requires
        0 <= i < live.len(),
        score.len() <= usize::MAX,
        sorted_by_time(score),
        positions_of(score, live[i].pitch).len() > 0,
    ensures
        spec_new_match(score, live, Seq::empty(), i) == Some(
            MatchPerPitch {
                score_per_pitch_index: 0,
                live_index: i as usize,
                stretch_factor: StretchFactor::spec_unit(),
                score_velocity: score[positions_of(score, live[i].pitch)[0] as int].velocity,
                live_velocity: live[i].velocity,
            },
        ),
{
    let p = live[i].pitch;
    let b = positions_of(score, p);
    lemma_positions_of(score, p);
    let d0 = spec_abs_diff(score[b[0] as int].time, 0);
    if b.len() > 1 {
        assert(b[0] < b[1]);
        assert(score[b[0] as int].time <= score[b[1] as int].time);
        assert(spec_best_offset(score, b, 1, 0, Some(d0)) is None);
    }
    assert(spec_best_offset(score, b, 0, 0, None) == Some(0 as int));
}

impl ScoreFollower for PolyphonoFlex {
    open spec fn follower_wf(&self) -> bool {
        self.wf()
    }

    open spec fn live_notes(&self) -> Seq<ScoreNote> {
        self.live_view()
    }

    open spec fn handled(&self) -> nat {
        self.matches_view().len() + self.ignored_view().len()
    }

    open spec fn handled_below(&self, n: int) -> bool {
        flex_recorded_below(self.matches_view(), self.ignored_view(), n)
    }

    fn push_live(&mut self, note: ScoreNote) {
        PolyphonoFlex::push_live(self, note)
    }

    fn follow_score(&mut self, new_live_index: usize) -> (r: Result<(), &'static str>) {
        PolyphonoFlex::follow_score(self, new_live_index)
    }

    fn matches_slice(&self, start: usize, end: usize) -> Vec<MatchPerScore> {
        PolyphonoFlex::matches_slice(self, start, end)
    }
}

/// One step of the flex matcher keeps the matches consistent, records exactly live index `i`,
/// and adds one entry to the matches or to the ignored notes.
pub proof fn lemma_flex_step_keeps_invariants(
    score: Seq<ScoreNote>,
    live: Seq<ScoreNote>,
    matches: Seq<MatchPerPitch>,
    ignored: Seq<usize>,
    i: int,
)
    requires
        0 <= i < live.len(),
        live.len() <= usize::MAX,
        score.len() <= usize::MAX,
        flex_matches_wf(score, live, matches),
        flex_recorded_below(matches, ignored, i),
    ensures
        flex_matches_wf(score, live, spec_flex_step(score, live, matches, ignored, i).0),
        flex_recorded_below(
            spec_flex_step(score, live, matches, ignored, i).0,
            spec_flex_step(score, live, matches, ignored, i).1,
            i + 1,
        ),
        spec_flex_step(score, live, matches, ignored, i).0.len() + spec_flex_step(
            score,
            live,
            matches,
            ignored,
            i,
        ).1.len() == matches.len() + ignored.len() + 1,
{
    let p = live[i].pitch;
    let bucket = positions_of(score, p);
    let t = spec_live_time_mapped(live, matches, live[i].time);
    let next = spec_next_offset(live, matches, p);
    lemma_best_offset(score, bucket, next, t, None);
    lemma_next_offset_above(score, live, matches, p);
    lemma_positions_of(score, p);
    if matches.len() > 0 {
        assert(matches.last() == matches[matches.len() - 1]);
    }
    let (m2, i2) = spec_flex_step(score, live, matches, ignored, i);
    match spec_new_match(score, live, matches, i) {
        Some(nm) => {
            let n = matches.len() as int;
            assert(m2 == matches.push(nm));
            assert(pitch_of(live, nm) == p);
            assert forall|a: int| 0 <= a < m2.len() implies {
                let m = #[trigger] m2[a];
                &&& m.live_index < live.len()
                &&& m.score_per_pitch_index < positions_of(score, pitch_of(live, m)).len()
                &&& m.stretch_factor.wf()
                &&& m.live_velocity == live[m.live_index as int].velocity
            } by {
                if a < n {
                    assert(m2[a] == matches[a]);
                }
            }
            assert forall|a: int, b: int| 0 <= a < b < m2.len() implies (
            #[trigger] m2[a]).live_index < (#[trigger] m2[b]).live_index by {
                assert(m2[a] == matches[a]);
                if b < n {
                    assert(m2[b] == matches[b]);
                }
            }
            assert forall|a: int, b: int|
                0 <= a < b < m2.len() && pitch_of(live, m2[a]) == pitch_of(
                    live,
                    m2[b],
                ) implies (#[trigger] m2[a]).score_per_pitch_index < (
            #[trigger] m2[b]).score_per_pitch_index by {
                assert(m2[a] == matches[a]);
                if b < n {
                    assert(m2[b] == matches[b]);
                }
            }
            assert forall|a: int| 0 <= a < m2.len() implies (#[trigger] m2[a]).live_index < i
                + 1 by {
                if a < n {
                    assert(m2[a] == matches[a]);
                }
            }
        },
        None => {
            let n = ignored.len() as int;
            assert(i2 == ignored.push(i as usize));
            assert forall|a: int, b: int| 0 <= a < b < i2.len() implies (#[trigger] i2[a]) < (
            #[trigger] i2[b]) by {
                assert(i2[a] == ignored[a]);
                if b < n {
                    assert(i2[b] == ignored[b]);
                }
            }
            assert forall|a: int| 0 <= a < i2.len() implies #[trigger] i2[a] < i + 1 by {
                if a < n {
                    assert(i2[a] == ignored[a]);
                }
            }
        },
    }
}

/// The flex matcher's invariants hold after any run: live indices grow strictly; within
/// each pitch the matched score indices grow strictly; every match pairs notes of equal pitch
/// and carries a finite, positive stretch factor; and every handled live note is either
/// matched or ignored, exactly once.
pub proof fn law_flex_matcher_invariants(
    score: Seq<ScoreNote>,
    live: Seq<ScoreNote>,
    matches: Seq<MatchPerPitch>,
    ignored: Seq<usize>,
    from: int,
    to: int,
)
    requires
        0 <= from <= to <= live.len(),
        live.len() <= usize::MAX,
        score.len() <= usize::MAX,
        flex_matches_wf(score, live, matches),
        flex_recorded_below(matches, ignored, from),
    ensures
        ({
            let (m2, i2) = spec_flex_follow(score, live, matches, ignored, from, to);
            &&& flex_matches_wf(score, live, m2)
            &&& flex_recorded_below(m2, i2, to)
            &&& m2.len() + i2.len() == matches.len() + ignored.len() + (to - from)
            &&& forall|k: int|
                0 <= k < m2.len() ==> score[spec_score_index(score, live, #[trigger] m2[k])].pitch
                    == live[m2[k].live_index as int].pitch
            &&& forall|a: int, b: int|
                0 <= a < b < m2.len() && pitch_of(live, m2[a]) == pitch_of(live, m2[b])
                    ==> spec_score_index(score, live, #[trigger] m2[a]) < spec_score_index(
                    score,
                    live,
                    #[trigger] m2[b],
                )
        }),
    decreases to - from,
{
    if to > from {
        law_flex_matcher_invariants(score, live, matches, ignored, from, to - 1);
        let prev = spec_flex_follow(score, live, matches, ignored, from, to - 1);
        lemma_flex_step_keeps_invariants(score, live, prev.0, prev.1, to - 1);
    }
    let (m2, i2) = spec_flex_follow(score, live, matches, ignored, from, to);
    assert forall|k: int| 0 <= k < m2.len() implies score[spec_score_index(
        score,
        live,
        #[trigger] m2[k],
    )].pitch == live[m2[k].live_index as int].pitch by {
        lemma_positions_of(score, pitch_of(live, m2[k]));
    }
    assert forall|a: int, b: int|
        0 <= a < b < m2.len() && pitch_of(live, m2[a]) == pitch_of(live, m2[b]) implies spec_score_index(
        score,
        live,
        #[trigger] m2[a],
    ) < spec_score_index(score, live, #[trigger] m2[b]) by {
        lemma_positions_of(score, pitch_of(live, m2[a]));
    }
}

} // verus!
