use vstd::prelude::*;

use crate::algo01_homophonopedantic::{spec_slice, MatchPerScore};
use crate::algo02_polyphonoflex::{
    flex_recorded_below, spec_flex_follow, spec_to_match_per_score, PolyphonoFlex,
};
use crate::cleanup::all_sound_off;
use crate::playback::{byte_views, play_next, spec_play_next, MidiMessages};
use crate::score::{events_wf, notes_wf, ScoreEvent, ScoreNote};

verus! {

/// The wait before the first playback step: one second, in microseconds.
pub const FIRST_WAIT: u64 = 1_000_000;

/// What the caller does after a step: send `messages`, then stop if `quit`, else wait for a
/// live note, the shutdown poll, or `wait` microseconds, whichever comes first.
pub struct Step {
    pub messages: MidiMessages,
    pub wait: u64,
    pub quit: bool,
}

/// The decisions of a score-following session: what to do with each live note, timer expiry
/// and shutdown request, and what to send.
pub struct Session {
    pub follower: PolyphonoFlex,
    pub playback_score: Vec<ScoreEvent>,
    pub delay: u64,
    pub new_live_index: usize,
    pub playback_head: usize,
    pub score_wait: u64,
    pub play: bool,
    pub quit: bool,
    pub outbound: MidiMessages,
}

/// The follower's matches, pointing into the expected score.
pub open spec fn spec_score_matches(f: PolyphonoFlex) -> Seq<MatchPerScore> {
    f.matches_view().map_values(
        |m| spec_to_match_per_score(f.score_view(), f.live_view(), m),
    )
}

impl Session {
    /// The follower is consistent, every live note so far has been followed, and the
    /// playback events are well formed.
    pub open spec fn wf(&self) -> bool {
        &&& self.follower.wf()
        &&& events_wf(self.playback_score@)
        &&& self.new_live_index == self.follower.live_view().len()
        &&& flex_recorded_below(
            self.follower.matches_view(),
            self.follower.ignored_view(),
            self.new_live_index as int,
        )
    }

    /// A session that follows `expect_score` and plays `playback_score` (`delay` in
    /// microseconds); an error where the expected score is empty.
    pub fn new(expect_score: Vec<ScoreNote>, playback_score: Vec<ScoreEvent>, delay: u64) -> (r:
        Result<Session, &'static str>)
        requires
            notes_wf(expect_score@),
            events_wf(playback_score@),
        ensures
            expect_score@.len() == 0 <==> r is Err,
            r is Ok ==> {
                let s = r->Ok_0;
                &&& s.wf()
                &&& s.follower.score_view() == expect_score@
                &&& s.follower.live_view().len() == 0
                &&& s.playback_score@ == playback_score@
                &&& s.delay == delay
                &&& s.playback_head == 0
                &&& s.score_wait == FIRST_WAIT
                &&& !s.play && !s.quit
                &&& s.outbound@.len() == 0
            },
    {
        if expect_score.len() == 0 {
            return Err("The expected score is empty");
        }
        let follower = PolyphonoFlex::new(expect_score);
        Ok(
            Session {
                follower,
                playback_score,
                delay,
                new_live_index: 0,
                playback_head: 0,
                score_wait: FIRST_WAIT,
                play: false,
                quit: false,
                outbound: Vec::new(),
            },
        )
    }

    /// A live note arrived: follow it in the score and ask for a playback step. An error where
    /// the note is not 7-bit or comes earlier than the previous one.
    pub fn on_live_note(&mut self, note: ScoreNote) -> (r: Result<(), &'static str>)
        requires
            old(self).wf(),
        ensures
            final(self).wf(),
            final(self).playback_score@ == old(self).playback_score@,
            final(self).playback_head == old(self).playback_head,
            final(self).outbound@ == old(self).outbound@,
            final(self).quit == old(self).quit,
            final(self).follower.score_view() == old(self).follower.score_view(),
            r is Ok <==> note.wf() && (old(self).follower.live_view().len() > 0
                ==> old(self).follower.live_view().last().time <= note.time),
            r is Err ==> *final(self) == *old(self),
            r is Ok ==> {
                let live = old(self).follower.live_view().push(note);
                &&& final(self).follower.live_view() == live
                &&& (final(self).follower.matches_view(), final(self).follower.ignored_view())
                    == spec_flex_follow(
                    old(self).follower.score_view(),
                    live,
                    old(self).follower.matches_view(),
                    old(self).follower.ignored_view(),
                    old(self).new_live_index as int,
                    live.len() as int,
                )
                &&& final(self).play
            },
    {
        if note.pitch >= 128 || note.velocity >= 128 {
            return Err("A live note must have 7-bit pitch and velocity");
        }
        let n = self.follower.live().len();
        if n > 0 && self.follower.live()[n - 1].time > note.time {
            return Err("A live note is earlier than the previous one");
        }
        self.follower.push_live(note);
        self.follower.follow_score(self.new_live_index)?;
        self.new_live_index = self.follower.live().len();
        self.play = true;
        Ok(())
    }

    /// The playback timer expired: ask for a playback step.
    pub fn on_timer(&mut self)
        ensures
            final(self).play,
            final(self).follower == old(self).follower,
            final(self).playback_score@ == old(self).playback_score@,
            final(self).new_live_index == old(self).new_live_index,
            final(self).playback_head == old(self).playback_head,
            final(self).outbound@ == old(self).outbound@,
            final(self).quit == old(self).quit,
    {
        self.play = true;
    }

    /// Shutdown was requested: queue "All Sound Off" on every channel and quit after the next
    /// step.
    pub fn on_shutdown(&mut self)
        ensures
            final(self).quit,
            final(self).play == old(self).play,
            final(self).follower == old(self).follower,
            final(self).playback_score@ == old(self).playback_score@,
            final(self).new_live_index == old(self).new_live_index,
            final(self).playback_head == old(self).playback_head,
            final(self).outbound@.len() == old(self).outbound@.len() + 16,
            forall|i: int|
                0 <= i < old(self).outbound@.len() ==> #[trigger] final(self).outbound@[i]
                    == old(self).outbound@[i],
            forall|c: int|
                0 <= c < 16 ==> (#[trigger] final(self).outbound@[old(self).outbound@.len() + c])@
                    == seq![(0xB0 + c) as u8, 120u8, 0u8],
    {
        let mut reset = all_sound_off();
        let ghost queued = self.outbound@;
        let ghost r = reset@;
        self.outbound.append(&mut reset);
        assert forall|c: int| 0 <= c < 16 implies (#[trigger] self.outbound@[queued.len() + c])@
            == seq![(0xB0 + c) as u8, 120u8, 0u8] by {
            assert(self.outbound@[queued.len() + c] == r[c]);
        }
        self.quit = true;
    }

    /// One turn of the loop at wall time `now` (microseconds since the Unix epoch): where a
    /// playback step was asked for and something was matched, emit the due playback events;
    /// hand out everything queued to send.
    pub fn step(&mut self, now: u64) -> (r: Result<Step, &'static str>)
        requires
            old(self).wf(),
        ensures
            final(self).wf(),
            final(self).follower == old(self).follower,
            final(self).playback_score@ == old(self).playback_score@,
            final(self).quit == old(self).quit,
            !final(self).play,
            final(self).outbound@.len() == 0,
            !(old(self).play && old(self).follower.matches_view().len() > 0) ==> r is Ok
                && byte_views(r->Ok_0.messages@) == byte_views(old(self).outbound@)
                && r->Ok_0.wait == old(self).score_wait && r->Ok_0.quit == old(self).quit
                && final(self).playback_head == old(self).playback_head,
            old(self).play && old(self).follower.matches_view().len() > 0 ==> match spec_play_next(
                old(self).follower.score_view(),
                old(self).follower.live_view(),
                old(self).playback_score@,
                old(self).playback_head as int,
                spec_score_matches(old(self).follower),
                now,
                old(self).delay,
            ) {
                Some((msgs, head, wait)) => r is Ok && byte_views(r->Ok_0.messages@) == byte_views(
                    old(self).outbound@,
                ) + msgs && r->Ok_0.wait == wait && r->Ok_0.quit == old(self).quit
                    && final(self).playback_head == head && final(self).score_wait == wait,
                None => r is Err,
            },
    {
        let mut messages: MidiMessages = Vec::new();
        std::mem::swap(&mut messages, &mut self.outbound);
        let ghost queued = messages@;
        if self.play {
            self.play = false;
            let n = self.follower.matches().len();
            if n > 0 {
                let matches = self.follower.matches_slice(0, n);
                proof {
                    assert(spec_slice(self.follower.matches_view(), 0, n as int)
                        == self.follower.matches_view());
                }
                let (mut midi, head, wait) = play_next(
                    self.follower.score(),
                    self.follower.live(),
                    &self.playback_score,
                    self.playback_head,
                    &matches,
                    now,
                    self.delay,
                )?;
                let ghost emitted = midi@;
                messages.append(&mut midi);
                assert(byte_views(messages@) =~= byte_views(queued) + byte_views(emitted));
                self.playback_head = head;
                self.score_wait = wait;
            }
        }
        Ok(Step { messages, wait: self.score_wait, quit: self.quit })
    }
}

} // verus!
