use vstd::prelude::*;

use crate::score::Channels;
use crate::text::{chars_of, parse_unsigned, spec_parse_unsigned};

verus! {

/// The characters that `char::is_whitespace` accepts (Unicode `White_Space`).
pub open spec fn spec_is_whitespace(c: char) -> bool {
    ('\u{9}' <= c && c <= '\u{d}') || c == ' ' || c == '\u{85}' || c == '\u{a0}' || c
        == '\u{1680}' || ('\u{2000}' <= c && c <= '\u{200a}') || c == '\u{2028}' || c
        == '\u{2029}' || c == '\u{202f}' || c == '\u{205f}' || c == '\u{3000}'
}

fn is_whitespace(c: char) -> (r: bool)
    ensures
        r == spec_is_whitespace(c),
{
    ('\u{9}' <= c && c <= '\u{d}') || c == ' ' || c == '\u{85}' || c == '\u{a0}' || c
        == '\u{1680}' || ('\u{2000}' <= c && c <= '\u{200a}') || c == '\u{2028}' || c
        == '\u{2029}' || c == '\u{202f}' || c == '\u{205f}' || c == '\u{3000}'
}

/// `s` without leading whitespace.
pub open spec fn spec_trim_start(s: Seq<char>) -> Seq<char>
    decreases s.len(),
{
    if s.len() > 0 && spec_is_whitespace(s[0]) {
        spec_trim_start(s.skip(1))
    } else {
        s
    }
}

/// `s` without trailing whitespace.
pub open spec fn spec_trim_end(s: Seq<char>) -> Seq<char>
    decreases s.len(),
{
    if s.len() > 0 && spec_is_whitespace(s.last()) {
        spec_trim_end(s.drop_last())
    } else {
        s
    }
}

/// `s` without leading and trailing whitespace.
pub open spec fn spec_trim(s: Seq<char>) -> Seq<char> {
    spec_trim_end(spec_trim_start(s))
}

/// The bounds of `s[start..end]` without leading and trailing whitespace.
fn trim_range(s: &Vec<char>, start: usize, end: usize) -> (r: (usize, usize))
    requires
        start <= end <= s@.len(),
    ensures
        start <= r.0 <= r.1 <= end,
        s@.subrange(r.0 as int, r.1 as int) == spec_trim(s@.subrange(start as int, end as int)),
{
    let mut a = start;
    while a < end && is_whitespace(s[a])
        invariant
            start <= a <= end <= s@.len(),
            spec_trim_start(s@.subrange(start as int, end as int)) == spec_trim_start(
                s@.subrange(a as int, end as int),
            ),
        decreases end - a,
    {
        assert(s@.subrange(a as int, end as int).skip(1) == s@.subrange(a + 1, end as int));
        a = a + 1;
    }
    assert(spec_trim_start(s@.subrange(start as int, end as int)) == s@.subrange(
        a as int,
        end as int,
    ));
    let mut b = end;
    while b > a && is_whitespace(s[b - 1])
        invariant
            a <= b <= end <= s@.len(),
            spec_trim_end(s@.subrange(a as int, end as int)) == spec_trim_end(
                s@.subrange(a as int, b as int),
            ),
        decreases b - a,
    {
        assert(s@.subrange(a as int, b as int).drop_last() == s@.subrange(a as int, b - 1));
        b = b - 1;
    }
    (a, b)
}

/// The index of the first `c` in `s`, or its length.
pub open spec fn spec_first_index(s: Seq<char>, c: char) -> nat
    decreases s.len(),
{
    if s.len() == 0 {
        0
    } else if s[0] == c {
        0
    } else {
        1 + spec_first_index(s.skip(1), c)
    }
}

/// The index of the last `c` in `s`, if any.
pub open spec fn spec_last_index(s: Seq<char>, c: char) -> Option<int>
    decreases s.len(),
{
    if s.len() == 0 {
        None
    } else if s.last() == c {
        Some(s.len() - 1)
    } else {
        spec_last_index(s.drop_last(), c)
    }
}

/// What [`spec_last_index`] finds lies in `s` and is `c`.
pub proof fn lemma_last_index(s: Seq<char>, c: char)
    ensures
        spec_last_index(s, c) is Some ==> 0 <= spec_last_index(s, c)->0 < s.len() && s[spec_last_index(s, c)->0] == c,
    decreases s.len(),
{
    if s.len() > 0 && s.last() != c {
        lemma_last_index(s.drop_last(), c);
    }
}

/// The pieces of `s` between commas.
pub open spec fn spec_split_commas(s: Seq<char>) -> Seq<Seq<char>>
    decreases s.len(),
{
    let k = spec_first_index(s, ',') as int;
    if 0 <= k < s.len() {
        seq![s.take(k)] + spec_split_commas(s.skip(k + 1))
    } else {
        seq![s]
    }
}

/// The 0-based channel that a piece names (1 to 16, around whitespace), if any.
pub open spec fn spec_parse_channel(piece: Seq<char>) -> Option<u8> {
    match spec_parse_unsigned(spec_trim(piece)) {
        Some(v) => if 1 <= v <= 16 {
            Some((v - 1) as u8)
        } else {
            None
        },
        None => None,
    }
}

/// The channels that the pieces name, or the first piece that names none.
pub open spec fn spec_parse_channel_list(pieces: Seq<Seq<char>>) -> Result<Seq<u8>, Seq<char>>
    decreases pieces.len(),
{
    if pieces.len() == 0 {
        Ok(Seq::empty())
    } else {
        match spec_parse_channel(pieces[0]) {
            None => Err(pieces[0]),
            Some(c) => match spec_parse_channel_list(pieces.skip(1)) {
                Ok(rest) => Ok(seq![c] + rest),
                Err(e) => Err(e),
            },
        }
    }
}

/// The 1-based track before the last colon (1 where there is none), or the message.
pub open spec fn spec_parse_track(s: Seq<char>) -> Result<nat, Seq<char>> {
    match spec_last_index(s, ':') {
        None => Ok(1),
        Some(c) => {
            let p = s.take(c);
            match spec_parse_unsigned(spec_trim(p)) {
                Some(t) => if t == 0 {
                    Err("Invalid track number '0'"@)
                } else if t <= usize::MAX {
                    Ok(t)
                } else {
                    Err("Invalid track number '"@ + p + "'"@)
                },
                None => Err("Invalid track number '"@ + p + "'"@),
            }
        },
    }
}

/// What a channel specification `[track:]channel[,channel...]` means: the 0-based track and
/// channels, or the message for the first fault (the track's before the channels').
pub open spec fn spec_parse_channels(s: Seq<char>) -> Result<(nat, Seq<u8>), Seq<char>> {
    let chan_part = match spec_last_index(s, ':') {
        Some(c) => s.skip(c + 1),
        None => s,
    };
    match spec_parse_track(s) {
        Err(e) => Err(e),
        Ok(t) => match spec_parse_channel_list(spec_split_commas(chan_part)) {
            Err(piece) => Err("Invalid MIDI channel number '"@ + piece + "'"@),
            Ok(cs) => Ok(((t - 1) as nat, cs)),
        },
    }
}

/// The index of the last `c` in `s`, if any.
fn last_index(s: &Vec<char>, c: char) -> (r: Option<usize>)
    ensures
        match spec_last_index(s@, c) {
            Some(k) => r == Some(k as usize),
            None => r is None,
        },
{
    let mut i = s.len();
    assert(s@.take(i as int) == s@);
    while i > 0
        invariant
            i <= s@.len(),
            spec_last_index(s@, c) == spec_last_index(s@.take(i as int), c),
        decreases i,
    {
        assert(s@.take(i as int).drop_last() == s@.take(i - 1));
        if s[i - 1] == c {
            return Some(i - 1);
        }
        i = i - 1;
    }
    None
}

/// The index of the first `c` in `s[from..end]`, counted from `from`, or `end - from`.
pub(crate) fn first_index(s: &Vec<char>, from: usize, end: usize, c: char) -> (r: usize)
    requires
        from <= end <= s@.len(),
    ensures
        r == spec_first_index(s@.subrange(from as int, end as int), c),
        from + r <= end,
{
    let mut i = from;
    while i < end && s[i] != c
        invariant
            from <= i <= end <= s@.len(),
            spec_first_index(s@.subrange(from as int, end as int), c) == (i - from)
                + spec_first_index(s@.subrange(i as int, end as int), c),
        decreases end - i,
    {
        assert(s@.subrange(i as int, end as int).skip(1) == s@.subrange(i + 1, end as int));
        i = i + 1;
    }
    i - from
}

impl Channels {
    /// Reads a channel specification `[track:]channel[,channel...]` with 1-based numbers
    /// (the track defaults to 1, channels run from 1 to 16, whitespace around numbers is
    /// allowed) into 0-based ones.
    pub fn from_str(s: &str) -> (r: Result<Channels, String>)
        ensures
            match spec_parse_channels(s@) {
                Ok((t, cs)) => r is Ok && r->Ok_0.track == t && r->Ok_0.midi_channels@ == cs,
                Err(m) => r is Err && r->Err_0@ == m,
            },
    {
        let chars = chars_of(s);
        let n = chars.len();
        let colon = last_index(&chars, ':');
        proof {
            lemma_last_index(s@, ':');
        }
        let chan_start = match colon {
            Some(c) => c + 1,
            None => 0,
        };
        let ghost chan_part = s@.subrange(chan_start as int, n as int);
        assert(chan_part == match spec_last_index(s@, ':') {
            Some(c) => s@.skip(c + 1),
            None => s@,
        });
        let ghost result = spec_parse_channel_list(spec_split_commas(chan_part));
        // The channels, or the bounds of the first piece that names none.
        let mut midi_channels: Vec<u8> = Vec::new();
        let mut bad = false;
        let mut bad_start: usize = 0;
        let mut bad_end: usize = 0;
        let mut pos = chan_start;
        let mut done = false;
        assert(s@.subrange(pos as int, n as int) == chan_part);
        assert(midi_channels@ + Seq::<u8>::empty() == midi_channels@);
        while !done
            invariant
                chars@ == s@,
                n == s@.len(),
                chan_start <= pos <= n,
                chan_part == s@.subrange(chan_start as int, n as int),
                result == spec_parse_channel_list(spec_split_commas(chan_part)),
                bad ==> done && bad_start <= bad_end <= n && result == Err::<Seq<u8>, Seq<char>>(
                    s@.subrange(bad_start as int, bad_end as int),
                ),
                !done ==> !bad && result == match spec_parse_channel_list(
                    spec_split_commas(s@.subrange(pos as int, n as int)),
                ) {
                    Ok(rest) => Ok(midi_channels@ + rest),
                    Err(e) => Err(e),
                },
                done && !bad ==> result == Ok::<Seq<u8>, Seq<char>>(midi_channels@),
            decreases (n - pos) as int + (if done {
                0 as int
            } else {
                1 as int
            }),
        {
            let ghost rest = s@.subrange(pos as int, n as int);
            let k = first_index(&chars, pos, n, ',');
            let (a, b) = trim_range(&chars, pos, pos + k);
            assert(s@.subrange(pos as int, pos + k) == rest.take(k as int));
            let v = parse_unsigned(&chars, a, b, 16);
            let ghost pieces = spec_split_commas(rest);
            assert(pieces[0] == rest.take(k as int));
            let ghost acc = midi_channels@;
            let ok = match v {
                Some(v) => v != 0,
                None => false,
            };
            if !ok {
                bad = true;
                bad_start = pos;
                bad_end = pos + k;
                done = true;
            } else {
                let c = match v {
                    Some(v) => (v - 1) as u8,
                    None => 0,
                };
                midi_channels.push(c);
                assert(spec_parse_channel(pieces[0]) == Some(c));
                if pos + k >= n {
                    assert(pieces == seq![rest]);
                    assert(pieces.skip(1) =~= Seq::<Seq<char>>::empty());
                    assert(midi_channels@ =~= acc + (seq![c] + Seq::<u8>::empty()));
                    done = true;
                } else {
                    assert(rest.skip(k + 1) == s@.subrange(pos + k + 1, n as int));
                    assert(pieces.skip(1) == spec_split_commas(rest.skip(k + 1)));
                    proof {
                        match spec_parse_channel_list(pieces.skip(1)) {
                            Ok(more) => {
                                assert(acc + (seq![c] + more) =~= midi_channels@ + more);
                            },
                            Err(e) => {},
                        }
                    }
                    pos = pos + k + 1;
                }
            }
        }
        let track: usize = match colon {
            None => 1,
            Some(c) => {
                let (a, b) = trim_range(&chars, 0, c);
                assert(s@.subrange(0, c as int) == s@.take(c as int));
                match parse_unsigned(&chars, a, b, usize::MAX as u64) {
                    Some(t) => {
                        if t == 0 {
                            return Err(String::from_str("Invalid track number '0'"));
                        }
                        t as usize
                    },
                    None => {
                        let mut msg = String::from_str("Invalid track number '");
                        msg.append(s.substring_char(0, c));
                        msg.append("'");
                        return Err(msg);
                    },
                }
            },
        };
        if bad {
            let mut msg = String::from_str("Invalid MIDI channel number '");
            msg.append(s.substring_char(bad_start, bad_end));
            msg.append("'");
            Err(msg)
        } else {
            Ok(Channels { track: track - 1, midi_channels })
        }
    }
}

impl core::str::FromStr for Channels {
    type Err = String;

    fn from_str(s: &str) -> Result<Channels, String> {
        Channels::from_str(s)
    }
}

} // verus!
