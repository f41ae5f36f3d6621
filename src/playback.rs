use vstd::prelude::*;

use crate::algo01_homophonopedantic::MatchPerScore;
use crate::score::{events_wf, spec_wire_bytes, write_midi_event, MidiMessage, ScoreEvent, ScoreNote};
use crate::{spec_stretch, stretch, Match, StretchFactor};

verus! {

/// Wire bytes of MIDI messages, one vector per message.
pub type MidiMessages = Vec<Vec<u8>>;

/// The wait returned once the playback score is exhausted: one hour, in microseconds.
pub const IDLE_WAIT: u64 = 3_600_000_000;

/// The wait returned when the next event is already due: 10 ms, in microseconds.
pub const RETRY_WAIT: u64 = 10_000;

/// A note-on with non-zero velocity takes the live velocity; anything else passes unchanged.
pub open spec fn spec_rewrite_velocity(message: MidiMessage, velocity: u8) -> MidiMessage {
    match message {
        MidiMessage::NoteOn { key, vel } => if vel == 0 {
            message
        } else {
            MidiMessage::NoteOn { key, vel: velocity }
        },
        _ => message,
    }
}

/// The wire bytes emitted for a playback event when the latest live velocity is `velocity`.
pub open spec fn spec_encoded(event: ScoreEvent, velocity: u8) -> Seq<u8> {
    spec_wire_bytes(event.channel, spec_rewrite_velocity(event.message, velocity))
}

/// The first index from `head` on whose event lies after `moment`, or the length.
pub open spec fn spec_emit_end(score: Seq<ScoreEvent>, head: int, moment: u64) -> int
    decreases score.len() - head,
{
    if head < 0 || head >= score.len() {
        head
    } else if score[head].time > moment {
        head
    } else {
        spec_emit_end(score, head + 1, moment)
    }
}

/// What [`spec_emit_end`] returns: the events it passes over are due, and the one it stops at
/// is not.
pub proof fn lemma_emit_end(score: Seq<ScoreEvent>, head: int, moment: u64)
    requires
        0 <= head <= score.len(),
    ensures
        head <= spec_emit_end(score, head, moment) <= score.len(),
        forall|j: int|
            head <= j < spec_emit_end(score, head, moment) ==> (#[trigger] score[j]).time
                <= moment,
        spec_emit_end(score, head, moment) < score.len() ==> score[spec_emit_end(
            score,
            head,
            moment,
        )].time > moment,
    decreases score.len() - head,
{
    if head < score.len() && score[head].time <= moment {
        lemma_emit_end(score, head + 1, moment);
    }
}

/// Playback keeps to score order: a step at score time `m1` followed by a step at a later
/// score time `m2` emits exactly the events, in the same order, that one step at `m2` would.
pub proof fn law_emission_follows_score_order(
    score: Seq<ScoreEvent>,
    head: int,
    m1: u64,
    m2: u64,
)
    requires
        0 <= head <= score.len(),
        m1 <= m2,
    ensures
        spec_emit_end(score, spec_emit_end(score, head, m1), m2) == spec_emit_end(
            score,
            head,
            m2,
        ),
    decreases score.len() - head,
{
    if head < score.len() && score[head].time <= m1 {
        law_emission_follows_score_order(score, head + 1, m1, m2);
    }
}

/// Playback follows the performer's tempo: after a step at wall time `t` returns the wait
/// until the next event at score time `ts_next`, a step that wall-clock wait later estimates a
/// score time that has not passed `ts_next` and falls short of it by at most
/// `k.score / k.live + 1` microseconds. (Where no value is capped at `u64::MAX`.)
pub proof fn law_wait_reaches_next_event(
    ts_prev: u64,
    t_prev: u64,
    t: u64,
    delay: u64,
    k: StretchFactor,
    ts_next: u64,
)
    requires
        k.wf(),
        t_prev <= t,
        ({
            let d = (t - t_prev) + delay;
            let ts = ts_prev + d * (k.score as int) / (k.live as int);
            let w = (ts_next - ts) * (k.live as int) / (k.score as int);
            &&& ts < ts_next
            &&& t + w + delay <= u64::MAX
            &&& ts_prev + (d + w) * (k.score as int) / (k.live as int) <= u64::MAX
        }),
    ensures
        ({
            let ts = spec_score_time_now(ts_prev, t_prev, t, delay, k);
            let w = spec_next_wait(seq![ScoreEvent { time: ts_next, channel: 0, message: MidiMessage::ProgramChange { program: 0 } }], 0, ts, k);
            let ts2 = spec_score_time_now(ts_prev, t_prev, (t + w) as u64, delay, k);
            &&& ts2 <= ts_next
            &&& ts_next <= ts2 + k.score / k.live + 1
        }),
{
    let l = k.live as int;
    let s = k.score as int;
    let d: int = (t - t_prev) + delay;
    let q1 = d * s / l;
    let r1 = d * s % l;
    let gap = ts_next - (ts_prev + q1);
    let w = gap * l / s;
    let r2 = gap * l % s;
    let q3 = (d + w) * s / l;
    let r3 = (d + w) * s % l;
    assert(gap > 0);
    assert(q1 <= (d + w) * s / l) by (nonlinear_arith)
        requires
            w >= 0,
            s > 0,
            l > 0,
            d >= 0,
            q1 == d * s / l,
    {
        vstd::arithmetic::div_mod::lemma_div_is_ordered(d * s, (d + w) * s, l);
    }
    assert(q1 <= u64::MAX);
    vstd::arithmetic::div_mod::lemma_fundamental_div_mod(d * s, l);
    vstd::arithmetic::div_mod::lemma_fundamental_div_mod(gap * l, s);
    vstd::arithmetic::div_mod::lemma_fundamental_div_mod((d + w) * s, l);
    vstd::arithmetic::div_mod::lemma_mod_pos_bound(d * s, l);
    vstd::arithmetic::div_mod::lemma_mod_pos_bound(gap * l, s);
    vstd::arithmetic::div_mod::lemma_mod_pos_bound((d + w) * s, l);
    vstd::arithmetic::div_mod::lemma_fundamental_div_mod(s, l);
    vstd::arithmetic::div_mod::lemma_mod_pos_bound(s, l);
    let qs = s / l;
    assert(q3 * l + r3 == (q1 + gap) * l + r1 - r2) by (nonlinear_arith)
        requires
            d * s == l * q1 + r1,
            gap * l == s * w + r2,
            (d + w) * s == l * q3 + r3,
    ;
    assert(q3 <= q1 + gap) by (nonlinear_arith)
        requires
            q3 * l + r3 == (q1 + gap) * l + r1 - r2,
            0 <= r1 < l,
            0 <= r2,
            0 <= r3,
            l > 0,
    ;
    assert(q3 >= q1 + gap - qs - 1) by (nonlinear_arith)
        requires
            q3 * l + r3 == (q1 + gap) * l + r1 - r2,
            0 <= r1,
            r2 < s,
            r3 < l,
            s == l * qs + s % l,
            s % l < l,
            l > 0,
    ;
}

/// Playback events fall due at the performer's tempo: with the last match at score time
/// `ts_prev` and wall time `t_prev` and stretch factor `k`, an event at score time `x` is due at
/// wall time `t` exactly when the elapsed wall time (plus the delay) has reached the score gap
/// `x - ts_prev` scaled by `k`. So events whose score times differ by `g` fall due `g * k`
/// apart, up to a microsecond of rounding. (Where no value is capped at `u64::MAX`.)
pub proof fn law_event_due_at_scaled_time(
    ts_prev: u64,
    t_prev: u64,
    t: u64,
    delay: u64,
    k: StretchFactor,
    x: u64,
)
    requires
        k.wf(),
        t_prev <= t,
        ts_prev <= x,
        (t - t_prev) + delay <= u64::MAX,
        ts_prev + ((t - t_prev) + delay) * (k.score as int) / (k.live as int) <= u64::MAX,
    ensures
        spec_score_time_now(ts_prev, t_prev, t, delay, k) >= x <==> ((t - t_prev) + delay) * (
        k.score as int) >= (x - ts_prev) * (k.live as int),
{
    let l = k.live as int;
    let s = k.score as int;
    let d: int = (t - t_prev) + delay;
    let g: int = x - ts_prev;
    let q = d * s / l;
    assert(d * s >= 0) by (nonlinear_arith)
        requires
            d >= 0,
            s >= 0,
    ;
    vstd::arithmetic::div_mod::lemma_fundamental_div_mod(d * s, l);
    vstd::arithmetic::div_mod::lemma_mod_pos_bound(d * s, l);
    let r = d * s % l;
    assert(q >= g <==> d * s >= g * l) by (nonlinear_arith)
        requires
            d * s == l * q + r,
            0 <= r < l,
            l > 0,
    ;
}

/// Encodes a playback event into wire bytes, giving note-ons with non-zero velocity the live
/// `velocity`.
pub fn encode_midi_event(event: &ScoreEvent, velocity: u8) -> (r: Vec<u8>)
    requires
        event.wf(),
        velocity < 128,
    ensures
        r@ == spec_encoded(*event, velocity),
{
    let message = match event.message {
        MidiMessage::NoteOn { key, vel } => if vel == 0 {
            event.message
        } else {
            MidiMessage::NoteOn { key, vel: velocity }
        },
        _ => event.message,
    };
    write_midi_event(event.channel, message)
}

/// Emits the events from `head` on that are due at `score_calculated_moment`: the wire bytes
/// of each, in score order, and the new head.
pub fn play_past_moments(
    score: &Vec<ScoreEvent>,
    head: usize,
    score_calculated_moment: u64,
    velocity: u8,
) -> (r: (MidiMessages, usize))
    requires
        events_wf(score@),
        head <= score@.len(),
        velocity < 128,
    ensures
        r.1 == spec_emit_end(score@, head as int, score_calculated_moment),
        r.0@.len() == r.1 - head,
        forall|k: int|
            0 <= k < r.0@.len() ==> (#[trigger] r.0@[k])@ == spec_encoded(
                score@[head + k],
                velocity,
            ),
{
    let mut buf: MidiMessages = Vec::new();
    let mut h = head;
    while h < score.len() && score[h].time <= score_calculated_moment
        invariant
            events_wf(score@),
            velocity < 128,
            head <= h <= score@.len(),
            spec_emit_end(score@, head as int, score_calculated_moment) == spec_emit_end(
                score@,
                h as int,
                score_calculated_moment,
            ),
            buf@.len() == h - head,
            forall|k: int|
                0 <= k < buf@.len() ==> (#[trigger] buf@[k])@ == spec_encoded(
                    score@[head + k],
                    velocity,
                ),
        decreases score@.len() - h,
    {
        let score_event = &score[h];
        assert(score_event.wf());
        let midi_data = encode_midi_event(score_event, velocity);
        buf.push(midi_data);
        h = h + 1;
    }
    (buf, h)
}

/// `a + b`, capped at `u64::MAX`.
pub open spec fn spec_saturating_add(a: u64, b: u64) -> u64 {
    if a + b > u64::MAX {
        u64::MAX
    } else {
        (a + b) as u64
    }
}

/// The estimated current score time: the score time of the last match plus the wall time
/// elapsed since it (and the delay), mapped into score time.
pub open spec fn spec_score_time_now(
    ts_prev: u64,
    t_prev: u64,
    t: u64,
    delay: u64,
    k: StretchFactor,
) -> u64 {
    spec_saturating_add(
        ts_prev,
        spec_stretch(
            spec_saturating_add((t - t_prev) as u64, delay),
            StretchFactor { live: k.score, score: k.live },
        ),
    )
}

/// The wait until the next playback event after the events up to `new_head` went out.
pub open spec fn spec_next_wait(
    playback: Seq<ScoreEvent>,
    new_head: int,
    ts: u64,
    k: StretchFactor,
) -> u64 {
    if new_head >= playback.len() {
        IDLE_WAIT
    } else if playback[new_head].time < ts {
        RETRY_WAIT
    } else {
        spec_stretch((playback[new_head].time - ts) as u64, k)
    }
}

/// The wire bytes of the events `head .. end` of `playback`, in order.
pub open spec fn spec_emitted(playback: Seq<ScoreEvent>, head: int, end: int, velocity: u8) -> Seq<
    Seq<u8>,
> {
    Seq::new((end - head) as nat, |k: int| spec_encoded(playback[head + k], velocity))
}

/// The views of a list of byte vectors.
pub open spec fn byte_views(v: Seq<Vec<u8>>) -> Seq<Seq<u8>> {
    v.map_values(|x: Vec<u8>| x@)
}

/// What a playback step yields: the emitted bytes, the new head and the wait; nothing where
/// the last match is unusable (none, out of range, or later than `t`).
pub open spec fn spec_play_next(
    expect_score: Seq<ScoreNote>,
    live: Seq<ScoreNote>,
    playback: Seq<ScoreEvent>,
    head: int,
    matches: Seq<MatchPerScore>,
    t: u64,
    delay: u64,
) -> Option<(Seq<Seq<u8>>, int, u64)> {
    if head >= playback.len() {
        Some((Seq::empty(), head, IDLE_WAIT))
    } else {
        let m = matches.last();
        if matches.len() > 0 && m.live_index < live.len() && m.score_index < expect_score.len()
            && m.stretch_factor.wf() && m.live_velocity < 128 && live[m.live_index as int].time
            <= t {
            let ts = spec_score_time_now(
                expect_score[m.score_index as int].time,
                live[m.live_index as int].time,
                t,
                delay,
                m.stretch_factor,
            );
            let new_head = spec_emit_end(playback, head, ts);
            Some(
                (
                    spec_emitted(playback, head, new_head, m.live_velocity),
                    new_head,
                    spec_next_wait(playback, new_head, ts, m.stretch_factor),
                ),
            )
        } else {
            None
        }
    }
}

/// Emits the playback events that are due at wall time `t` (microseconds since the Unix
/// epoch), given the last match, and computes the wait until the next one.
///
/// Returns the emitted wire bytes, the new head and the wait (microseconds).
pub fn play_next(
    expect_score: &Vec<ScoreNote>,
    live: &Vec<ScoreNote>,
    playback_score: &Vec<ScoreEvent>,
    head: usize,
    matches: &Vec<MatchPerScore>,
    t: u64,
    delay: u64,
) -> (r: Result<(MidiMessages, usize, u64), &'static str>)
    requires
        events_wf(playback_score@),
    ensures
        match spec_play_next(expect_score@, live@, playback_score@, head as int, matches@, t, delay) {
            Some((msgs, h, wait)) => r is Ok && byte_views(r->Ok_0.0@) == msgs && r->Ok_0.1 == h
                && r->Ok_0.2 == wait,
            None => r is Err,
        },
{
    if head >= playback_score.len() {
        // The playback score has reached its end: only live notes matter from now on.
        let none: MidiMessages = Vec::new();
        assert(byte_views(none@) =~= Seq::<Seq<u8>>::empty());
        return Ok((none, head, IDLE_WAIT));
    }
    if matches.len() == 0 {
        return Err("Playback needs a previous match");
    }
    let prev_match = matches[matches.len() - 1];
    let t_prev = prev_match.live_time(live)?;
    let ts_prev = prev_match.score_time(expect_score)?;
    let k = prev_match.stretch_factor();
    if k.live == 0 || k.score == 0 {
        return Err("The previous match has no valid stretch factor");
    }
    if prev_match.live_velocity() >= 128 {
        return Err("The previous match has no valid live velocity");
    }
    if t < t_prev {
        return Err("Current time is earlier than the time of the previous match");
    }
    let dt = t - t_prev;
    let dts = stretch(dt.saturating_add(delay), k.inverse());
    let ts = ts_prev.saturating_add(dts);
    let (buf, new_head) = play_past_moments(
        playback_score,
        head,
        ts,
        prev_match.live_velocity(),
    );
    proof {
        lemma_emit_end(playback_score@, head as int, ts);
        assert(byte_views(buf@) =~= spec_emitted(
            playback_score@,
            head as int,
            new_head as int,
            prev_match.live_velocity,
        ));
    }
    let dt_next = if new_head >= playback_score.len() {
        IDLE_WAIT
    } else {
        let ts_next = playback_score[new_head].time;
        if ts_next < ts {
            RETRY_WAIT
        } else {
            stretch(ts_next - ts, k)
        }
    };
    Ok((buf, new_head, dt_next))
}

} // verus!
